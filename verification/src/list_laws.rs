//! What lists of names, cache headers and picture headers say.

use vstd::prelude::*;

use crate::cache_dat::CacheFileDate;
use crate::json::JsonView;
use crate::json_text::RawView;
use crate::names::{is_skipped, new_names, with_lines};
use crate::ytd::TextureFormat;

verus! {

// ─── names ───────────────────────────────────────────────────────────────────

/// A list of names gives every name on it a place: its hash then has a name,
/// the first one listed where it had none before, and the one it had where it
/// had one. Nothing else gets a name.
pub proof fn law_lists_name_their_hashes(
    names: Map<u32, Seq<char>>,
    lines: Seq<Seq<char>>,
    n: nat,
    k: int,
    hash: u32,
)
    requires
        n <= lines.len(),
    ensures
        ({
            let after = with_lines(names, lines, n);
            &&& names.contains_key(hash) ==> after.contains_key(hash) && after[hash]
                == names[hash]
            &&& 0 <= k < n && !is_skipped(crate::chars::trimmed(lines[k]))
                ==> after.contains_key(crate::hash::name_hash(crate::chars::trimmed(lines[k])))
            &&& after.contains_key(hash) && !names.contains_key(hash) ==> exists|j: int|
                0 <= j < n && #[trigger] crate::chars::trimmed(lines[j]) == after[hash]
                    && crate::hash::name_hash(after[hash]) == hash && !is_skipped(after[hash])
        }),
    decreases n,
{
    if n > 0 {
        let m = (n - 1) as nat;
        law_lists_name_their_hashes(names, lines, m, k, hash);
        let before = with_lines(names, lines, m);
        let after = with_lines(names, lines, n);
        let name = crate::chars::trimmed(lines[n - 1]);
        if after.contains_key(hash) && !names.contains_key(hash) {
            if before.contains_key(hash) {
                let j = choose|j: int|
                    0 <= j < m && #[trigger] crate::chars::trimmed(lines[j]) == before[hash]
                        && crate::hash::name_hash(before[hash]) == hash && !is_skipped(
                        before[hash],
                    );
                assert(0 <= j < n && crate::chars::trimmed(lines[j]) == after[hash]);
            } else {
                assert(crate::chars::trimmed(lines[n - 1]) == after[hash]);
            }
        }
    }
}

/// A line that is blank or starts with `#` names nothing; any other does.
pub proof fn law_which_lines_are_skipped(name: Seq<char>)
    ensures
        is_skipped(Seq::empty()),
        is_skipped(seq!['#'] + name),
        name.len() > 0 && name[0] != '#' ==> !is_skipped(name),
{
}

/// The count of new names is by how many the table grows.
pub proof fn law_new_names_are_counted(
    names: Map<u32, Seq<char>>,
    lines: Seq<Seq<char>>,
    n: nat,
)
    requires
        names.dom().finite(),
        n <= lines.len(),
    ensures
        with_lines(names, lines, n).dom().finite(),
        with_lines(names, lines, n).dom().len() == names.dom().len() + new_names(names, lines, n),
    decreases n,
{
    if n > 0 {
        law_new_names_are_counted(names, lines, (n - 1) as nat);
        let before = with_lines(names, lines, (n - 1) as nat);
        let name = crate::chars::trimmed(lines[n - 1]);
        let hash = crate::hash::name_hash(name);
        if !is_skipped(name) && !before.contains_key(hash) {
            assert(with_lines(names, lines, n).dom() =~= before.dom().insert(hash));
        }
    }
}

// ─── caches ──────────────────────────────────────────────────────────────────

/// A line of a date reads back: the hash of the file, its time and its id, as
/// decimal numbers with a space between.
pub proof fn law_dates_read_back(date: CacheFileDate)
    ensures
        crate::cache_dat::date_of(
            vstd::utf8::encode_utf8(
                crate::schema_laws::joined(
                    seq![
                        crate::text::signed_decimal(date.file_name as int),
                        crate::text::signed_decimal(date.timestamp as int),
                        crate::text::signed_decimal(date.file_id as int),
                    ],
                    ' ',
                ),
            ),
        ) == Some(date),
{
    let parts = seq![
        crate::text::signed_decimal(date.file_name as int),
        crate::text::signed_decimal(date.timestamp as int),
        crate::text::signed_decimal(date.file_id as int),
    ];
    let t = crate::schema_laws::joined(parts, ' ');
    vstd::utf8::encode_utf8_valid_utf8(t);
    vstd::utf8::encode_utf8_decode_utf8(t);
    crate::schema_laws::lemma_bare_decimal(date.file_name as int, ' ');
    crate::schema_laws::lemma_bare_decimal(date.timestamp as int, ' ');
    crate::schema_laws::lemma_bare_decimal(date.file_id as int, ' ');
    crate::schema_laws::lemma_pieces(parts, ' ');
    lemma_unsigned_decimal(date.file_name);
    lemma_unsigned_decimal(date.file_id);
    crate::schema_laws::lemma_number_word(date.timestamp);
    assert(crate::chars::signed(parts[1], false) == Some(date.timestamp as int));
    assert(crate::chars::pieces(t, ' ') == parts);
    assert(parts[0] == crate::text::signed_decimal(date.file_name as int));
}

proof fn lemma_unsigned_decimal(n: u32)
    ensures
        crate::chars::unsigned(crate::text::signed_decimal(n as int), false, 0xFFFF_FFFF) == Some(
            n as int,
        ),
{
    let d = crate::text::decimal(n as nat);
    crate::xml_laws::lemma_decimal_digits(n as nat);
    crate::text::law_decimal_round_trip(n as nat);
    assert('0' <= d[0] <= '9');
}

proof fn lemma_untagged(s: Seq<char>, i: int)
    requires
        0 <= i <= s.len(),
        forall|j: int| i <= j < s.len() ==> #[trigger] s[j] != '[',
    ensures
        crate::cache_dat::without_tag(s, i) == s.skip(i),
    decreases s.len() - i,
{
    reveal_strlit("[VERSION]");
    assert("[VERSION]"@[0] == '[');
    if i < s.len() {
        lemma_untagged(s, i + 1);
        if i + 9 <= s.len() {
            assert(s.subrange(i, i + 9)[0] == s[i]);
        }
        assert(seq![s[i]] + s.skip(i + 1) =~= s.skip(i));
    } else {
        assert(s.skip(i) =~= Seq::empty());
    }
}

/// The version of a cache is what follows the tag at its start.
pub proof fn law_versions_follow_their_tag(v: Seq<char>)
    requires
        forall|j: int| 0 <= j < v.len() ==> #[trigger] v[j] != '[',
    ensures
        crate::cache_dat::without_tag("[VERSION]"@ + v, 0) == v,
{
    reveal_strlit("[VERSION]");
    let s = "[VERSION]"@ + v;
    assert("[VERSION]"@.len() == 9);
    assert(s.subrange(0, 9) =~= "[VERSION]"@);
    assert forall|j: int| 9 <= j < s.len() implies #[trigger] s[j] != '[' by {
        assert(s[j] == v[j - 9]);
    }
    lemma_untagged(s, 9);
    assert(s.skip(9) =~= v);
}

// ─── pictures ────────────────────────────────────────────────────────────────

/// Four characters as the number that a header holds them as.
pub open spec fn four(a: char, b: char, c: char, d: char) -> u32 {
    (a as int + 0x100 * (b as int) + 0x1_0000 * (c as int) + 0x100_0000 * (d as int)) as u32
}

/// The four characters that name a block format, and no others, are read.
pub proof fn law_block_names(n: u32)
    ensures
        crate::dds::fourcc_format(four('D', 'X', 'T', '1')) == Some(TextureFormat::DXT1),
        crate::dds::fourcc_format(four('D', 'X', 'T', '2')) == Some(TextureFormat::DXT3),
        crate::dds::fourcc_format(four('D', 'X', 'T', '3')) == Some(TextureFormat::DXT3),
        crate::dds::fourcc_format(four('D', 'X', 'T', '4')) == Some(TextureFormat::DXT5),
        crate::dds::fourcc_format(four('D', 'X', 'T', '5')) == Some(TextureFormat::DXT5),
        crate::dds::fourcc_format(four('A', 'T', 'I', '1')) == Some(TextureFormat::ATI1),
        crate::dds::fourcc_format(four('B', 'C', '4', 'U')) == Some(TextureFormat::ATI1),
        crate::dds::fourcc_format(four('A', 'T', 'I', '2')) == Some(TextureFormat::ATI2),
        crate::dds::fourcc_format(four('B', 'C', '5', 'U')) == Some(TextureFormat::ATI2),
        crate::dds::fourcc_format(n) is Some ==> exists|k: int|
            0 <= k < 9 && #[trigger] block_names()[k] == n,
{
    let b = block_names();
    assert(b[0] == 0x3154_5844 && b[1] == 0x3254_5844 && b[2] == 0x3354_5844 && b[3]
        == 0x3454_5844 && b[4] == 0x3554_5844 && b[5] == 0x3149_5441 && b[6] == 0x5534_4342
        && b[7] == 0x3249_5441 && b[8] == 0x5535_4342);
}

/// The names of the block formats.
pub open spec fn block_names() -> Seq<u32> {
    seq![
        four('D', 'X', 'T', '1'),
        four('D', 'X', 'T', '2'),
        four('D', 'X', 'T', '3'),
        four('D', 'X', 'T', '4'),
        four('D', 'X', 'T', '5'),
        four('A', 'T', 'I', '1'),
        four('B', 'C', '4', 'U'),
        four('A', 'T', 'I', '2'),
        four('B', 'C', '5', 'U'),
    ]
}

/// A DXGI number and the number of its sRGB form are the same format, and no
/// two other numbers are. The block formats stand in the order of their
/// numbers.
pub proof fn law_dxgi_numbers(a: u32, b: u32)
    ensures
        crate::dds::dxgi_format(28) == Some(TextureFormat::A8B8G8R8),
        crate::dds::dxgi_format(87) == Some(TextureFormat::A8R8G8B8),
        crate::dds::dxgi_format(88) == Some(TextureFormat::X8R8G8B8),
        crate::dds::dxgi_format(65) == Some(TextureFormat::A8),
        crate::dds::dxgi_format(61) == Some(TextureFormat::L8),
        crate::dds::dxgi_format(86) == Some(TextureFormat::A1R5G5B5),
        crate::dds::dxgi_format(71) == Some(TextureFormat::DXT1),
        crate::dds::dxgi_format(74) == Some(TextureFormat::DXT3),
        crate::dds::dxgi_format(77) == Some(TextureFormat::DXT5),
        crate::dds::dxgi_format(80) == Some(TextureFormat::ATI1),
        crate::dds::dxgi_format(83) == Some(TextureFormat::ATI2),
        crate::dds::dxgi_format(98) == Some(TextureFormat::BC7),
        crate::dds::dxgi_format(a) is Some && a < b ==> (crate::dds::dxgi_format(a)
            == crate::dds::dxgi_format(b) <==> {
            ||| b == a + 1 && (a == 28 || a == 71 || a == 74 || a == 77 || a == 98)
            ||| a == 87 && b == 91
            ||| a == 88 && b == 93
        }),
{
}

/// Channel masks tell what lies where in a pixel: blue lowest unless red is,
/// and alpha only where the header says that it counts.
pub proof fn law_masks_tell_the_format(flags: u32, r: u32, g: u32, b: u32, a: u32)
    requires
        flags / 0x40 % 2 == 1,
    ensures
        r == 0xFF_0000 && g == 0xFF00 && b == 0xFF && flags % 2 == 1 && a == 0xFF00_0000
            ==> crate::dds::mask_format(flags, 32, r, g, b, a) == Some(TextureFormat::A8R8G8B8),
        r == 0xFF_0000 && g == 0xFF00 && b == 0xFF && (flags % 2 == 0 || a != 0xFF00_0000)
            ==> crate::dds::mask_format(flags, 32, r, g, b, a) == Some(TextureFormat::X8R8G8B8),
        r == 0xFF && g == 0xFF00 && b == 0xFF_0000 && flags % 2 == 1 && a == 0xFF00_0000
            ==> crate::dds::mask_format(flags, 32, r, g, b, a) == Some(TextureFormat::A8B8G8R8),
        r == 0xFF && g == 0xFF00 && b == 0xFF_0000 && (flags % 2 == 0 || a != 0xFF00_0000)
            ==> crate::dds::mask_format(flags, 32, r, g, b, a) is None,
        r == 0x7C00 && g == 0x3E0 && b == 0x1F ==> crate::dds::mask_format(
            flags,
            16,
            r,
            g,
            b,
            a,
        ) == Some(TextureFormat::A1R5G5B5),
        g != 0xFF00 ==> crate::dds::mask_format(flags, 32, r, g, b, a) is None,
{
}

/// A picture of one channel of eight bits is grey where the header says
/// luminance, and alpha where it says alpha and has no colour.
pub proof fn law_single_channels(flags: u32, a: u32)
    requires
        flags / 0x40 % 2 == 0,
    ensures
        flags / 0x2_0000 % 2 == 1 ==> crate::dds::mask_format(flags, 8, 0xFF, 0, 0, a) == Some(
            TextureFormat::L8,
        ),
        flags / 0x2_0000 % 2 == 0 && (flags / 2 % 2 == 1 || flags % 2 == 1)
            ==> crate::dds::mask_format(flags, 8, 0, 0, 0, a) == Some(TextureFormat::A8),
        flags / 0x2_0000 % 2 == 0 && flags / 2 % 2 == 0 && flags % 2 == 0
            ==> crate::dds::mask_format(flags, 8, 0, 0, 0, a) is None,
{
}

// ─── JSON numbers ────────────────────────────────────────────────────────────

/// A whole number in a JSON text is that number: signed where sixty-four bits
/// hold it so, else unsigned.
pub proof fn law_json_integers(n: int, floats: crate::coerce::Floats)
    ensures
        i64::MIN <= n <= i64::MAX ==> crate::json_text::node_of(
            RawView::Number {
                positive: n >= 0,
                mantissa: (if n < 0 { -n } else { n }) as u64,
                exponent: 0,
            },
            floats,
        ) == JsonView::Int(n as i64),
        i64::MAX < n <= u64::MAX ==> crate::json_text::node_of(
            RawView::Number { positive: true, mantissa: n as u64, exponent: 0 },
            floats,
        ) == JsonView::Uint(n as u64),
{
}

} // verus!
