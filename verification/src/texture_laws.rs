//! What the formats, sizes and headers of textures are for.

use vstd::prelude::*;

use crate::layout::stands;
use crate::texture_encode::{EncodeErrorView, EncodeFormat, EncodedView};
use crate::ytd::{TextureFormat, TextureView};

verus! {

broadcast use crate::layout::group_fields_stand;

/// The word whose four bytes are the characters of a code, a space where the
/// code has only three.
pub open spec fn four_characters(code: Seq<char>) -> u32 {
    let last = if code.len() > 3 {
        code[3]
    } else {
        ' '
    };
    (code[0] as int + 0x100 * (code[1] as int) + 0x1_0000 * (code[2] as int) + 0x100_0000 * (
    last as int)) as u32
}

proof fn lemma_format_letters()
    ensures
        "DXT1"@ == seq!['D', 'X', 'T', '1'],
        "DXT3"@ == seq!['D', 'X', 'T', '3'],
        "DXT5"@ == seq!['D', 'X', 'T', '5'],
        "ATI1"@ == seq!['A', 'T', 'I', '1'],
        "ATI2"@ == seq!['A', 'T', 'I', '2'],
        "BC7"@ == seq!['B', 'C', '7'],
        "A8R8G8B8"@ == seq!['A', '8', 'R', '8', 'G', '8', 'B', '8'],
{
    reveal_strlit("DXT1");
    reveal_strlit("DXT3");
    reveal_strlit("DXT5");
    reveal_strlit("ATI1");
    reveal_strlit("ATI2");
    reveal_strlit("BC7");
    reveal_strlit("A8R8G8B8");
    assert("DXT1"@ =~= seq!['D', 'X', 'T', '1']);
    assert("DXT3"@ =~= seq!['D', 'X', 'T', '3']);
    assert("DXT5"@ =~= seq!['D', 'X', 'T', '5']);
    assert("ATI1"@ =~= seq!['A', 'T', 'I', '1']);
    assert("ATI2"@ =~= seq!['A', 'T', 'I', '2']);
    assert("BC7"@ =~= seq!['B', 'C', '7']);
    assert("A8R8G8B8"@ =~= seq!['A', '8', 'R', '8', 'G', '8', 'B', '8']);
}

proof fn lemma_encoding_letters()
    ensures
        "bc1"@ == seq!['b', 'c', '1'],
        "bc3"@ == seq!['b', 'c', '3'],
        "bc4"@ == seq!['b', 'c', '4'],
        "bc5"@ == seq!['b', 'c', '5'],
        "bc7"@ == seq!['b', 'c', '7'],
        "dxt1"@ == seq!['d', 'x', 't', '1'],
        "dxt5"@ == seq!['d', 'x', 't', '5'],
        "ati1"@ == seq!['a', 't', 'i', '1'],
        "ati2"@ == seq!['a', 't', 'i', '2'],
        "rgba"@ == seq!['r', 'g', 'b', 'a'],
        "rgba8"@ == seq!['r', 'g', 'b', 'a', '8'],
        "a8r8g8b8"@ == seq!['a', '8', 'r', '8', 'g', '8', 'b', '8'],
        "none"@ == seq!['n', 'o', 'n', 'e'],
{
    reveal_strlit("bc1");
    reveal_strlit("bc3");
    reveal_strlit("bc4");
    reveal_strlit("bc5");
    reveal_strlit("bc7");
    reveal_strlit("dxt1");
    reveal_strlit("dxt5");
    reveal_strlit("ati1");
    reveal_strlit("ati2");
    reveal_strlit("rgba");
    reveal_strlit("rgba8");
    reveal_strlit("a8r8g8b8");
    reveal_strlit("none");
    assert("bc1"@ =~= seq!['b', 'c', '1']);
    assert("bc3"@ =~= seq!['b', 'c', '3']);
    assert("bc4"@ =~= seq!['b', 'c', '4']);
    assert("bc5"@ =~= seq!['b', 'c', '5']);
    assert("bc7"@ =~= seq!['b', 'c', '7']);
    assert("dxt1"@ =~= seq!['d', 'x', 't', '1']);
    assert("dxt5"@ =~= seq!['d', 'x', 't', '5']);
    assert("ati1"@ =~= seq!['a', 't', 'i', '1']);
    assert("ati2"@ =~= seq!['a', 't', 'i', '2']);
    assert("rgba"@ =~= seq!['r', 'g', 'b', 'a']);
    assert("rgba8"@ =~= seq!['r', 'g', 'b', 'a', '8']);
    assert("a8r8g8b8"@ =~= seq!['a', '8', 'r', '8', 'g', '8', 'b', '8']);
    assert("none"@ =~= seq!['n', 'o', 'n', 'e']);
}

/// The format of an encoded texture is the one that its blocks are in, and no
/// two encodings share one.
pub proof fn law_formats_are_those_of_the_blocks(f: EncodeFormat, g: EncodeFormat)
    ensures
        crate::texture_encode::made_format(EncodeFormat::Bc1) == TextureFormat::DXT1,
        crate::texture_encode::made_format(EncodeFormat::Bc3) == TextureFormat::DXT5,
        crate::texture_encode::made_format(EncodeFormat::Bc4) == TextureFormat::ATI1,
        crate::texture_encode::made_format(EncodeFormat::Bc5) == TextureFormat::ATI2,
        crate::texture_encode::made_format(EncodeFormat::Bc7) == TextureFormat::BC7,
        crate::texture_encode::made_format(EncodeFormat::Rgba8) == TextureFormat::A8R8G8B8,
        crate::texture_encode::made_format(f) == crate::texture_encode::made_format(g) ==> f == g,
        crate::ytd::in_blocks(crate::texture_encode::made_format(f)) <==> f
            != EncodeFormat::Rgba8,
{
}

/// The name of the format that an encoding makes, in lower case, asks for that
/// encoding again, and so does the encoding's own name.
pub proof fn law_names_ask_for_their_encoding(f: EncodeFormat)
    ensures
        crate::texture_encode::format_named(
            crate::chars::lowered(
                crate::ytd::format_name(crate::texture_encode::made_format(f)),
            ),
        ) == Some(f),
        crate::texture_encode::format_named(f.text()) == Some(f),
        crate::texture_encode::format_named("rgba"@) == Some(EncodeFormat::Rgba8),
        crate::texture_encode::format_named("none"@) == Some(EncodeFormat::Rgba8),
{
    lemma_format_letters();
    lemma_encoding_letters();
    assert(crate::chars::lowered("DXT1"@) =~= "dxt1"@);
    assert(crate::chars::lowered("DXT5"@) =~= "dxt5"@);
    assert(crate::chars::lowered("ATI1"@) =~= "ati1"@);
    assert(crate::chars::lowered("ATI2"@) =~= "ati2"@);
    assert(crate::chars::lowered("BC7"@) =~= "bc7"@);
    assert(crate::chars::lowered("A8R8G8B8"@) =~= "a8r8g8b8"@);
    assert("bc1"@[2] == '1' && "bc3"@[2] == '3' && "bc4"@[2] == '4' && "bc5"@[2] == '5'
        && "bc7"@[2] == '7');
    assert("dxt1"@[3] == '1' && "dxt5"@[3] == '5' && "ati1"@[3] == '1' && "ati2"@[3] == '2');
    assert("dxt1"@[0] == 'd' && "dxt5"@[0] == 'd' && "ati1"@[0] == 'a' && "ati2"@[0] == 'a');
    assert("rgba"@[0] == 'r' && "none"@[0] == 'n');
}

/// The number of a block format is the four characters of its name, and the
/// numbers of the others are those of Direct3D.
pub proof fn law_format_numbers(f: TextureFormat)
    ensures
        crate::ytd::in_blocks(f) ==> crate::ytd::format_code(f) == four_characters(
            crate::ytd::format_name(f),
        ),
        crate::ytd::in_blocks(f) <==> crate::ytd::format_code(f) > 0xFFFF,
        crate::ytd::format_code(TextureFormat::A8R8G8B8) == 21,
        crate::ytd::format_code(TextureFormat::X8R8G8B8) == 22,
        crate::ytd::format_code(TextureFormat::A1R5G5B5) == 25,
        crate::ytd::format_code(TextureFormat::A8) == 28,
        crate::ytd::format_code(TextureFormat::A8B8G8R8) == 32,
        crate::ytd::format_code(TextureFormat::L8) == 50,
        crate::ytd::format_code(TextureFormat::Unknown) == 0,
        forall|v: u32| #[trigger]
            crate::ytd::format_of(v) != TextureFormat::Unknown ==> crate::ytd::format_code(
                crate::ytd::format_of(v),
            ) == v,
{
    lemma_format_letters();
    assert("DXT1"@[0] == 'D' && "DXT1"@[1] == 'X' && "DXT1"@[2] == 'T' && "DXT1"@[3] == '1');
    assert("DXT3"@[0] == 'D' && "DXT3"@[1] == 'X' && "DXT3"@[2] == 'T' && "DXT3"@[3] == '3');
    assert("DXT5"@[0] == 'D' && "DXT5"@[1] == 'X' && "DXT5"@[2] == 'T' && "DXT5"@[3] == '5');
    assert("ATI1"@[0] == 'A' && "ATI1"@[1] == 'T' && "ATI1"@[2] == 'I' && "ATI1"@[3] == '1');
    assert("ATI2"@[0] == 'A' && "ATI2"@[1] == 'T' && "ATI2"@[2] == 'I' && "ATI2"@[3] == '2');
    assert("BC7"@[0] == 'B' && "BC7"@[1] == 'C' && "BC7"@[2] == '7');
}

/// A level of a block format takes eight or sixteen bytes for every four by
/// four pixels begun, four bits or eight for a pixel; of any other format as
/// many bits for a pixel as its name counts.
pub proof fn law_level_sizes(f: TextureFormat, columns: int, rows: int, width: u16, height: u16)
    requires
        0 < columns,
        0 < rows,
        4 * columns - 4 < width <= 4 * columns,
        4 * rows - 4 < height <= 4 * rows,
    ensures
        f == TextureFormat::DXT1 || f == TextureFormat::ATI1 ==> crate::ytd::level_bytes(
            f,
            width,
            height,
        ) == columns * rows * 8,
        f == TextureFormat::DXT3 || f == TextureFormat::DXT5 || f == TextureFormat::ATI2 || f
            == TextureFormat::BC7 ==> crate::ytd::level_bytes(f, width, height) == columns * rows
            * 16,
        f == TextureFormat::A8R8G8B8 || f == TextureFormat::X8R8G8B8 || f
            == TextureFormat::A8B8G8R8 ==> crate::ytd::level_bytes(f, width, height) == (4 * width)
            * height,
        f == TextureFormat::A1R5G5B5 ==> crate::ytd::level_bytes(f, width, height) == (2 * width)
            * height,
        f == TextureFormat::A8 || f == TextureFormat::L8 ==> crate::ytd::level_bytes(
            f,
            width,
            height,
        ) == width * height,
{
    assert(crate::resource::ceil_div(width as int, 4) == columns);
    assert(crate::resource::ceil_div(height as int, 4) == rows);
    assert(crate::resource::ceil_div(width * 32, 8) == 4 * width);
    assert(crate::resource::ceil_div(width * 16, 8) == 2 * width);
    assert(crate::resource::ceil_div(width * 8, 8) == width);
}

/// The stride of a texture whose sides are multiples of four is a quarter of
/// what its blocks of four rows take, or the bytes of one of its rows.
pub proof fn law_strides(f: TextureFormat, columns: u16, rows: u16)
    requires
        0 < columns <= 0x3FFF,
        0 < rows <= 0x3FFF,
        4 * columns * 4 <= 0xFFFF,
    ensures
        f == TextureFormat::DXT1 || f == TextureFormat::ATI1 ==> crate::ytd::stride_of(
            f,
            (4 * columns) as u16,
            (4 * rows) as u16,
        ) == 2 * columns,
        f == TextureFormat::DXT5 || f == TextureFormat::ATI2 || f == TextureFormat::BC7 || f
            == TextureFormat::DXT3 ==> crate::ytd::stride_of(
            f,
            (4 * columns) as u16,
            (4 * rows) as u16,
        ) == 4 * columns,
        f == TextureFormat::A8R8G8B8 ==> crate::ytd::stride_of(
            f,
            (4 * columns) as u16,
            (4 * rows) as u16,
        ) == 16 * columns,
{
    let w = (4 * columns) as u16;
    let h = (4 * rows) as u16;
    law_level_sizes(f, columns as int, rows as int, w, h);
    let (c, r) = (columns as int, rows as int);
    assert(c * r * 8 == (2 * c) * (4 * r)) by (nonlinear_arith);
    assert(c * r * 16 == (4 * c) * (4 * r)) by (nonlinear_arith);
    assert((4 * (4 * c)) * (4 * r) == (16 * c) * (4 * r)) by (nonlinear_arith);
    vstd::arithmetic::div_mod::lemma_div_multiples_vanish(2 * c, 4 * r);
    vstd::arithmetic::div_mod::lemma_div_multiples_vanish(4 * c, 4 * r);
    vstd::arithmetic::div_mod::lemma_div_multiples_vanish(16 * c, 4 * r);
    vstd::arithmetic::mul::lemma_mul_is_commutative(2 * c, 4 * r);
    vstd::arithmetic::mul::lemma_mul_is_commutative(4 * c, 4 * r);
    vstd::arithmetic::mul::lemma_mul_is_commutative(16 * c, 4 * r);
}

/// The texture made of encoded pixels has the size, the number of levels and
/// the name that were asked for, the hash of its lower-case name, one layer,
/// and the first bytes that the encoder gave, as many as its levels take.
pub proof fn law_finished_textures(
    name: Seq<char>,
    format: EncodeFormat,
    width: u16,
    height: u16,
    levels: u8,
    data: Seq<u8>,
)
    ensures
        ({
            let f = crate::texture_encode::made_format(format);
            let size = crate::ytd::dds_chain(f, width, height, levels as nat) as int;
            let r = crate::texture_encode::finished(
                name,
                format,
                width,
                height,
                levels,
                EncodedView::Data(data),
            );
            &&& r is Ok <==> data.len() >= size
            &&& r is Ok ==> {
                let t = r->Ok_0;
                &&& t.name == name
                &&& t.name_hash == crate::hash::name_hash(crate::text::lowercased(name))
                &&& t.width == width
                &&& t.height == height
                &&& t.depth == 1
                &&& t.levels == levels
                &&& t.format == f
                &&& t.stride == crate::ytd::stride_of(f, width, height)
                &&& t.pixel_data.len() == size
                &&& forall|i: int| 0 <= i < size ==> #[trigger] t.pixel_data[i] == data[i]
            }
        }),
{
    let f = crate::texture_encode::made_format(format);
    lemma_chain(f, width, height, levels as nat);
}

proof fn lemma_chain(f: TextureFormat, width: u16, height: u16, k: nat)
    ensures
        crate::ytd::dds_chain(f, width, height, k) >= 0,
    decreases k,
{
    if k > 0 {
        lemma_chain(f, width, height, (k - 1) as nat);
        let w = crate::ytd::halved(width, (k - 1) as nat);
        let h = crate::ytd::halved(height, (k - 1) as nat);
        if crate::ytd::in_blocks(f) {
            let a = crate::resource::at_least_one(crate::resource::ceil_div(w as int, 4));
            let b = crate::resource::at_least_one(crate::resource::ceil_div(h as int, 4));
            let d = crate::ytd::density(f);
            assert(a * b * d >= 0) by (nonlinear_arith)
                requires
                    a >= 0,
                    b >= 0,
                    d >= 0,
            ;
        } else {
            let a = crate::resource::ceil_div(w * crate::ytd::density(f), 8);
            assert(w * crate::ytd::density(f) >= 0) by (nonlinear_arith)
                requires
                    crate::ytd::density(f) >= 0,
            ;
            assert(a * h >= 0) by (nonlinear_arith)
                requires
                    a >= 0,
            ;
        }
    }
}

/// As many levels are made as asked for, one at least and never more than the
/// size has; all of them where no number is asked for.
pub proof fn law_level_counts(most: u8, n: u8)
    requires
        most >= 1,
    ensures
        crate::texture_encode::level_count(most, None) == most,
        1 <= n <= most ==> crate::texture_encode::level_count(most, Some(n)) == n,
        n > most ==> crate::texture_encode::level_count(most, Some(n)) == most,
        crate::texture_encode::level_count(most, Some(0)) == 1,
{
}

/// Pixels are encoded exactly where both sides are between 1 and 65535, there
/// are four bytes for each pixel, and both sides are multiples of four unless
/// the encoding keeps the pixels as they are.
pub proof fn law_which_pixels_are_encoded(len: int, width: u32, height: u32, format: EncodeFormat)
    ensures
        crate::texture_encode::refused(len, width, height, format) is None <==> {
            &&& 1 <= width <= 65535
            &&& 1 <= height <= 65535
            &&& len == (width * height) * 4
            &&& format == EncodeFormat::Rgba8 || width % 4 == 0 && height % 4 == 0
        },
        width == 0 || height == 0 || width > 65535 || height > 65535 ==>
            crate::texture_encode::refused(len, width, height, format) == Some(
            EncodeErrorView::Size { width, height },
        ),
{
}

/// Without a format asked for, a normal map is encoded with two channels,
/// whatever its pixels; any other image keeps its alpha exactly where a pixel
/// is not fully opaque, the alpha being the last of its four bytes.
pub proof fn law_formats_by_name_and_alpha(name: Seq<char>, rgba: Seq<u8>)
    ensures
        crate::texture_encode::default_format(name, rgba) == EncodeFormat::Bc5 <==>
            crate::texture_encode::marks_normals(name),
        crate::texture_encode::default_format(name, rgba) == EncodeFormat::Bc1 <==> (
        !crate::texture_encode::marks_normals(name) && forall|i: int|
            0 <= i < rgba.len() as int / 4 * 4 && i % 4 == 3 ==> #[trigger] rgba[i] == 255),
        crate::texture_encode::default_format(name, rgba) == EncodeFormat::Bc1
            || crate::texture_encode::default_format(name, rgba) == EncodeFormat::Bc3
            || crate::texture_encode::default_format(name, rgba) == EncodeFormat::Bc5,
{
    let opaque = forall|i: int|
        0 <= i < rgba.len() as int / 4 * 4 && i % 4 == 3 ==> #[trigger] rgba[i] == 255;
    let clear = exists|k: int|
        0 <= k < rgba.len() as int / 4 && #[trigger] crate::texture_encode::is_clear(rgba, k);
    if opaque && clear {
        let k = choose|k: int|
            0 <= k < rgba.len() as int / 4 && #[trigger] crate::texture_encode::is_clear(rgba, k);
        assert(rgba[4 * k + 3] == 255);
    }
    if !opaque {
        let i = choose|i: int|
            0 <= i < rgba.len() as int / 4 * 4 && i % 4 == 3 && #[trigger] rgba[i] != 255;
        assert(crate::texture_encode::is_clear(rgba, i / 4));
        assert(4 * (i / 4) + 3 == i);
    }
}

/// A name marks a normal map by its end, in either case of letters: `_n`,
/// `_nrm`, `_normal` or `_nm`, a digit after it or not.
pub proof fn law_normal_map_names(stem: Seq<char>, digit: char)
    requires
        '0' <= digit <= '9',
    ensures
        crate::texture_encode::marks_normals(stem + "_n"@),
        crate::texture_encode::marks_normals(stem + "_N"@),
        crate::texture_encode::marks_normals(stem + "_nrm"@),
        crate::texture_encode::marks_normals(stem + "_normal"@),
        crate::texture_encode::marks_normals(stem + "_nm"@),
        crate::texture_encode::marks_normals((stem + "_n"@).push(digit)),
        crate::texture_encode::marks_normals((stem + "_nrm"@).push(digit)),
        crate::texture_encode::marks_normals((stem + "_normal"@).push(digit)),
        crate::texture_encode::marks_normals((stem + "_nm"@).push(digit)),
        !crate::texture_encode::marks_normals(stem + "_d"@),
        !crate::texture_encode::marks_normals(stem + "_s"@),
        !crate::texture_encode::marks_normals(stem + "n_"@),
{
    reveal_strlit("_n");
    reveal_strlit("_N");
    reveal_strlit("_nrm");
    reveal_strlit("_normal");
    reveal_strlit("_nm");
    reveal_strlit("_d");
    reveal_strlit("_s");
    reveal_strlit("n_");
    assert("_n"@.last() == 'n' && "_N"@.last() == 'N' && "_nrm"@.last() == 'm');
    assert("_normal"@.last() == 'l' && "_nm"@.last() == 'm');
    lemma_marks(stem, "_n"@, digit);
    lemma_marks(stem, "_N"@, digit);
    lemma_marks(stem, "_nrm"@, digit);
    lemma_marks(stem, "_normal"@, digit);
    lemma_marks(stem, "_nm"@, digit);
    assert(crate::chars::lowered("_n"@) =~= "_n"@);
    assert(crate::chars::lowered("_N"@) =~= "_n"@);
    assert(crate::chars::lowered("_nrm"@) =~= "_nrm"@);
    assert(crate::chars::lowered("_normal"@) =~= "_normal"@);
    assert(crate::chars::lowered("_nm"@) =~= "_nm"@);
    lemma_no_mark(stem + "_d"@);
    lemma_no_mark(stem + "_s"@);
    lemma_no_mark(stem + "n_"@);
}

proof fn lemma_marks(stem: Seq<char>, mark: Seq<char>, digit: char)
    requires
        '0' <= digit <= '9',
        mark.len() > 0,
        !('0' <= mark.last() <= '9'),
    ensures
        ({
            let low = crate::chars::lowered(stem + mark);
            crate::texture_encode::ends(
                crate::texture_encode::without_digit(low),
                crate::chars::lowered(mark),
            )
        }),
        ({
            let low = crate::chars::lowered((stem + mark).push(digit));
            crate::texture_encode::ends(
                crate::texture_encode::without_digit(low),
                crate::chars::lowered(mark),
            )
        }),
{
    let low = crate::chars::lowered(stem + mark);
    let end = crate::chars::lowered(mark);
    assert(low.last() == crate::chars::lower(mark.last()));
    assert(low.skip(low.len() - end.len()) =~= end);
    let more = crate::chars::lowered((stem + mark).push(digit));
    assert(more.last() == digit);
    assert(more.drop_last() =~= low);
}

proof fn lemma_no_mark(name: Seq<char>)
    requires
        name.len() > 0,
        name.last() == 'd' || name.last() == 's' || name.last() == '_',
    ensures
        !crate::texture_encode::marks_normals(name),
{
    let low = crate::chars::lowered(name);
    reveal_strlit("_n");
    reveal_strlit("_nrm");
    reveal_strlit("_normal");
    reveal_strlit("_nm");
    assert(low.last() == name.last());
    let n = low.len() as int;
    if crate::texture_encode::ends(low, "_n"@) {
        assert(low.skip(n - 2)[1] == "_n"@[1]);
    }
    if crate::texture_encode::ends(low, "_nrm"@) {
        assert(low.skip(n - 4)[3] == "_nrm"@[3]);
    }
    if crate::texture_encode::ends(low, "_normal"@) {
        assert(low.skip(n - 7)[6] == "_normal"@[6]);
    }
    if crate::texture_encode::ends(low, "_nm"@) {
        assert(low.skip(n - 3)[2] == "_nm"@[2]);
    }
}

/// A texture is read from the fields that stand in its record, each at its
/// own place, whatever their values.
pub proof fn law_texture_records(
    system: Seq<u8>,
    graphics: Seq<u8>,
    va: u64,
    hash: u32,
    raw: Seq<u8>,
    t: TextureView,
    name: u64,
    data: u64,
)
    requires
        crate::resource::resolved(system, graphics, va, 0x90) == Some(raw),
        stands(raw, 0x28, crate::bytes::le64_bytes(name)),
        stands(raw, 0x50, crate::bytes::le16_bytes(t.width)),
        stands(raw, 0x52, crate::bytes::le16_bytes(t.height)),
        stands(raw, 0x54, crate::bytes::le16_bytes(t.depth)),
        stands(raw, 0x56, crate::bytes::le16_bytes(t.stride)),
        stands(raw, 0x58, crate::bytes::le32_bytes(crate::ytd::format_code(t.format))),
        raw[0x5D] == t.levels,
        stands(raw, 0x70, crate::bytes::le64_bytes(data)),
        t.name == crate::ytd::name_at(system, name),
        t.name_hash == hash,
        data != 0,
        t.pixel_data.len() > 0,
        t.pixel_data.len() == crate::ytd::game_chain(t.stride, t.height, t.levels as nat),
        crate::resource::resolved(system, graphics, data, t.pixel_data.len() as int) == Some(
            t.pixel_data,
        ),
    ensures
        crate::ytd::texture_at(system, graphics, va, hash) == Some(t),
{
    crate::ytd::law_format_codes(t.format);
}

/// In a DDS the height, the width, the size of the top level, the depth and
/// the number of levels stand at their places, behind the magic word and the
/// size of the header; then come the flags, the code and the masks of the
/// pixel format.
pub proof fn law_dds_headers(t: TextureView)
    ensures
        ({
            let h = crate::ytd::dds_header(t);
            &&& h.len() == 128
            &&& h.take(4) == seq![0x44u8, 0x44, 0x53, 0x20]
            &&& stands(h, 4, crate::bytes::le32_bytes(124))
            &&& stands(h, 12, crate::bytes::le32_bytes(t.height as u32))
            &&& stands(h, 16, crate::bytes::le32_bytes(t.width as u32))
            &&& stands(h, 20, crate::bytes::le32_bytes((t.stride * t.height) as u32))
            &&& stands(h, 24, crate::bytes::le32_bytes(t.depth as u32))
            &&& stands(h, 28, crate::bytes::le32_bytes(t.levels as u32))
            &&& stands(h, 76, crate::bytes::le32_bytes(32))
            &&& stands(
                h,
                80,
                crate::bytes::le32_bytes(
                    if crate::ytd::in_blocks(t.format) {
                        4
                    } else {
                        crate::ytd::masks_of(t.format).0
                    },
                ),
            )
        }),
        crate::ytd::in_blocks(t.format) && t.format != TextureFormat::BC7 ==> stands(
            crate::ytd::dds_header(t),
            84,
            crate::bytes::le32_bytes(crate::ytd::format_code(t.format)),
        ),
{
    let h = crate::ytd::dds_header(t);
    let front = crate::ytd::dds_front(t);
    let pixel = crate::ytd::pixel_format(t.format);
    assert(front.len() == 76);
    assert(pixel.len() == 32);
    assert(h.len() == 128);
    assert(h.take(4) =~= crate::bytes::le32_bytes(0x2053_4444));
    assert(crate::bytes::le32_bytes(0x2053_4444) =~= seq![0x44u8, 0x44, 0x53, 0x20]);
    assert(h.subrange(4, 8) =~= crate::bytes::le32_bytes(124));
    assert(h.subrange(12, 16) =~= crate::bytes::le32_bytes(t.height as u32));
    assert(h.subrange(16, 20) =~= crate::bytes::le32_bytes(t.width as u32));
    assert(h.subrange(20, 24) =~= crate::bytes::le32_bytes((t.stride * t.height) as u32));
    assert(h.subrange(24, 28) =~= crate::bytes::le32_bytes(t.depth as u32));
    assert(h.subrange(28, 32) =~= crate::bytes::le32_bytes(t.levels as u32));
    assert(h.subrange(76, 108) =~= pixel);
    assert(h.subrange(76, 80) =~= pixel.subrange(0, 4));
    assert(pixel.subrange(0, 4) =~= crate::bytes::le32_bytes(32));
    let flags = if crate::ytd::in_blocks(t.format) {
        4
    } else {
        crate::ytd::masks_of(t.format).0
    };
    assert(h.subrange(80, 84) =~= pixel.subrange(4, 8));
    assert(pixel.subrange(4, 8) =~= crate::bytes::le32_bytes(flags));
    if crate::ytd::in_blocks(t.format) && t.format != TextureFormat::BC7 {
        assert(h.subrange(84, 88) =~= pixel.subrange(8, 12));
        assert(pixel.subrange(8, 12) =~= crate::bytes::le32_bytes(
            crate::ytd::format_code(t.format),
        ));
    }
}

/// The masks of a format part its bits among the channels that its name lists,
/// from the high bits to the low ones.
pub proof fn law_channel_masks()
    ensures
        crate::ytd::masks_of(TextureFormat::A8R8G8B8) == (
            0x41u32,
            32u32,
            0x00FF_0000u32,
            0x0000_FF00u32,
            0x0000_00FFu32,
            0xFF00_0000u32,
        ),
        crate::ytd::masks_of(TextureFormat::X8R8G8B8) == (
            0x40u32,
            32u32,
            0x00FF_0000u32,
            0x0000_FF00u32,
            0x0000_00FFu32,
            0u32,
        ),
        crate::ytd::masks_of(TextureFormat::A8B8G8R8) == (
            0x41u32,
            32u32,
            0x0000_00FFu32,
            0x0000_FF00u32,
            0x00FF_0000u32,
            0xFF00_0000u32,
        ),
        crate::ytd::masks_of(TextureFormat::A1R5G5B5) == (
            0x41u32,
            16u32,
            0x7C00u32,
            0x03E0u32,
            0x001Fu32,
            0x8000u32,
        ),
        crate::ytd::masks_of(TextureFormat::A8) == (0x2u32, 8u32, 0u32, 0u32, 0u32, 0xFFu32),
        crate::ytd::masks_of(TextureFormat::L8) == (0x2_0000u32, 8u32, 0xFFu32, 0u32, 0u32, 0u32),
{
}

} // verus!
