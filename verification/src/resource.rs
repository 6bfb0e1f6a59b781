//! RSC7 resource files: the flag words, the two address spaces, the
//! compressed container.

use flate2::read::DeflateDecoder;
use flate2::write::DeflateEncoder;
use flate2::Compression;
use std::io::Read;
use vstd::prelude::*;
use vstd::slice::*;
use vstd::string::*;

use crate::bytes::{pad_to, push_bytes, push_u32_le, to_vec};
use crate::math::{Vec3, Vec4};
use crate::text::{from_utf8_lossy, push_decimal, push_hex};

verus! {

broadcast use vstd::slice::group_slice_axioms;

/// "RSC7": the header on every GTA V resource file (.ydr/.ytd/.ybn/.ynv…).
pub const RSC7_MAGIC: u32 = 0x37435352;

/// "RSC8": the Gen9 resource header, which is not supported.
pub const RSC8_MAGIC: u32 = 0x38435352;
/// "FXAP", the magic of an escrowed asset.
pub const FXAP_MAGIC: u32 = 0x50415846;

pub const SYSTEM_BASE: u64 = 0x5000_0000;

pub const GRAPHICS_BASE: u64 = 0x6000_0000;

/// Longest string [`ResReader::string_at`] reads before giving up on finding
/// a terminating NUL.
pub const MAX_STRING_LEN: usize = 256;

/// What can be wrong with a resource file, or with what should become one.
#[derive(Debug, Clone, Copy, PartialEq, Eq, Structural)]
pub enum ResourceError {
    /// Fewer bytes than a header.
    TooShort,
    /// The magic that stands where "RSC7" should.
    BadMagic(u32),
    /// The compressed stream broke after this many bytes of the expected.
    Corrupt { inflated: usize, expected: u64 },
    /// The body is shorter than the system section the flags describe.
    ShortSystem { have: usize, need: u64 },
    /// A section of this size has no flag word.
    TooLarge(usize),
    /// This many pages of this size have no flag word.
    Pages { count: usize, page_size: usize },
    /// This many blocks find no place in the pages of one section.
    NoPageLayout(usize),
}

impl ResourceError {
    /// The error in words.
    pub fn message(&self) -> (r: String)
        ensures
            r@ == self.text(),
    {
        let mut out = String::new();
        match *self {
            ResourceError::TooShort => {
                out.append("RSC7 data too short");
            },
            ResourceError::BadMagic(magic) => {
                out.append("Not an RSC7 file (magic = 0x");
                push_hex(&mut out, magic as u64, 8);
                out.append(")");
            },
            ResourceError::Corrupt { inflated, expected } => {
                out.append("corrupt deflate stream: inflated ");
                push_decimal(&mut out, inflated as u64);
                out.append(" of an expected ");
                push_decimal(&mut out, expected);
                out.append(" bytes before failing");
            },
            ResourceError::ShortSystem { have, need } => {
                out.append("Decompressed size ");
                push_decimal(&mut out, have as u64);
                out.append(" < expected system size ");
                push_decimal(&mut out, need);
            },
            ResourceError::TooLarge(size) => {
                push_decimal(&mut out, size as u64);
                out.append(" bytes is too large for an RSC7 section");
            },
            ResourceError::Pages { count, page_size } => {
                push_decimal(&mut out, count as u64);
                out.append(" pages of ");
                push_decimal(&mut out, page_size as u64);
                out.append(" bytes cannot be described by RSC7 flags");
            },
            ResourceError::NoPageLayout(blocks) => {
                push_decimal(&mut out, blocks as u64);
                out.append(" blocks do not fit the pages of an RSC7 section");
            },
        }
        assert(out@ =~= self.text());
        out
    }

    /// The wording of the error.
    pub open spec fn text(self) -> Seq<char> {
        match self {
            ResourceError::TooShort => "RSC7 data too short"@,
            ResourceError::BadMagic(magic) => "Not an RSC7 file (magic = 0x"@ + crate::text::hex(
                magic as nat,
                8,
            ) + ")"@,
            ResourceError::Corrupt { inflated, expected } => "corrupt deflate stream: inflated "@
                + crate::text::decimal(inflated as nat) + " of an expected "@
                + crate::text::decimal(expected as nat) + " bytes before failing"@,
            ResourceError::ShortSystem { have, need } => "Decompressed size "@
                + crate::text::decimal(have as nat) + " < expected system size "@
                + crate::text::decimal(need as nat),
            ResourceError::TooLarge(size) => crate::text::decimal(size as nat)
                + " bytes is too large for an RSC7 section"@,
            ResourceError::Pages { count, page_size } => crate::text::decimal(count as nat)
                + " pages of "@ + crate::text::decimal(page_size as nat)
                + " bytes cannot be described by RSC7 flags"@,
            ResourceError::NoPageLayout(blocks) => crate::text::decimal(blocks as nat)
                + " blocks do not fit the pages of an RSC7 section"@,
        }
    }
}

// ─── flag words ──────────────────────────────────────────────────────────────

/// The size of the smallest page of a section whose flags end in `ss`.
pub open spec fn base_page(ss: int) -> int
    decreases ss,
{
    if ss <= 0 {
        0x200
    } else {
        2 * base_page(ss - 1)
    }
}

/// How many smallest pages the nine page counts of a flag word add up to.
#[verifier::opaque]
pub open spec fn page_units(flags: u32) -> int {
    flags / 0x800_0000 % 2 + 2 * (flags / 0x400_0000 % 2) + 4 * (flags / 0x200_0000 % 2) + 8 * (flags
        / 0x100_0000 % 2) + 16 * (flags / 0x2_0000 % 0x80) + 32 * (flags / 0x800 % 0x40) + 64 * (
    flags / 0x80 % 0x10) + 128 * (flags / 0x20 % 4) + 256 * (flags / 0x10 % 2)
}

/// How many pages the nine page counts of a flag word add up to.
#[verifier::opaque]
pub open spec fn page_count(flags: u32) -> int {
    flags / 0x800_0000 % 2 + flags / 0x400_0000 % 2 + flags / 0x200_0000 % 2 + flags / 0x100_0000
        % 2 + flags / 0x2_0000 % 0x80 + flags / 0x800 % 0x40 + flags / 0x80 % 0x10 + flags / 0x20
        % 4 + flags / 0x10 % 2
}

/// The byte size of the section that a flag word describes.
pub open spec fn section_size(flags: u32) -> int {
    base_page((flags % 0x10) as int) * page_units(flags)
}

/// The most smallest-size pages that one flag word can describe.
pub open spec fn max_units() -> int {
    5663
}

/// The smaller of two numbers.
pub open spec fn least(a: int, b: int) -> int {
    if a < b {
        a
    } else {
        b
    }
}

/// `n` divided by `d`, rounded up.
pub open spec fn ceil_div(n: int, d: int) -> int {
    (n + d - 1) / d
}

/// What is left of `units` smallest pages once the 256-, 128-, 64-, 32- and
/// 16-unit pages have each taken as many as the format lets them.
pub open spec fn units_after(units: int, stage: int) -> int
    decreases stage,
{
    if stage <= 0 {
        units
    } else {
        let before = units_after(units, stage - 1);
        before - page_of(stage) * least(before / page_of(stage), cap_of(stage))
    }
}

/// The page sizes in units, largest first, as stages one to nine.
pub open spec fn page_of(stage: int) -> int {
    if stage == 1 {
        256
    } else if stage == 2 {
        128
    } else if stage == 3 {
        64
    } else if stage == 4 {
        32
    } else if stage == 5 {
        16
    } else if stage == 6 {
        8
    } else if stage == 7 {
        4
    } else if stage == 8 {
        2
    } else {
        1
    }
}

/// How many pages of a stage's size the format can count.
pub open spec fn cap_of(stage: int) -> int {
    if stage == 2 {
        3
    } else if stage == 3 {
        15
    } else if stage == 4 {
        63
    } else if stage == 5 {
        127
    } else {
        1
    }
}

/// The weight of a stage's count in the flag word.
pub open spec fn weight_of(stage: int) -> int {
    if stage == 1 {
        0x10
    } else if stage == 2 {
        0x20
    } else if stage == 3 {
        0x80
    } else if stage == 4 {
        0x800
    } else if stage == 5 {
        0x2_0000
    } else if stage == 6 {
        0x100_0000
    } else if stage == 7 {
        0x200_0000
    } else if stage == 8 {
        0x400_0000
    } else {
        0x800_0000
    }
}

/// How many pages of a stage's size hold `units`, largest pages first.
pub open spec fn taken(units: int, stage: int) -> int {
    least(units_after(units, stage - 1) / page_of(stage), cap_of(stage))
}

/// The page counts of the first `stage` stages, each at its place in the
/// flag word.
pub open spec fn counts_word(units: int, stage: int) -> int
    decreases stage,
{
    if stage <= 0 {
        0
    } else {
        counts_word(units, stage - 1) + weight_of(stage) * taken(units, stage)
    }
}

/// Whether pages of base size `ss` can hold `size` bytes.
pub open spec fn base_fits(size: int, ss: int) -> bool {
    ceil_div(size, base_page(ss)) <= max_units()
}

/// The smallest base size from `ss` on whose pages can hold `size` bytes,
/// sixteen where there is none.
pub open spec fn fitting_base(size: int, ss: int) -> int
    decreases 16 - ss,
{
    if ss >= 16 || base_fits(size, ss) {
        ss
    } else {
        fitting_base(size, ss + 1)
    }
}

/// Whether any flag word describes a section of `size` bytes.
pub open spec fn section_fits(size: int) -> bool {
    fitting_base(size, 0) < 16
}

/// The flag word of the smallest page set that holds `size` bytes.
pub open spec fn size_flags(size: int) -> u32 {
    let ss = fitting_base(size, 0);
    (ss + counts_word(ceil_div(size, base_page(ss)), 9)) as u32
}

/// The size that `size` bytes are padded to.
pub open spec fn padded_size(size: int) -> int {
    let base = base_page(fitting_base(size, 0));
    base * ceil_div(size, base)
}

/// The base size that candidate `k` of [`page_flags`] tries.
pub open spec fn candidate_base(k: int) -> int {
    k / 9
}

/// The stage that candidate `k` tries: smallest pages first.
pub open spec fn candidate_stage(k: int) -> int {
    9 - k % 9
}

/// Whether candidate `k` describes `count` pages of `page_size` bytes.
pub open spec fn candidate_matches(page_size: int, count: int, k: int) -> bool {
    &&& base_page(candidate_base(k)) * page_of(candidate_stage(k)) == page_size
    &&& count <= cap_of(candidate_stage(k))
}

/// The first candidate from `k` on that describes the pages, 144 where none
/// does.
pub open spec fn first_candidate(page_size: int, count: int, k: int) -> int
    decreases 144 - k,
{
    if k >= 144 || candidate_matches(page_size, count, k) {
        k
    } else {
        first_candidate(page_size, count, k + 1)
    }
}

/// The flag word for `count` pages of `page_size` bytes each.
pub open spec fn page_flags(page_size: int, count: int) -> Option<u32> {
    let k = first_candidate(page_size, count, 0);
    if k < 144 {
        Some((candidate_base(k) + weight_of(candidate_stage(k)) * count) as u32)
    } else {
        None
    }
}

proof fn lemma_base_page(ss: int)
    requires
        0 <= ss < 16,
    ensures
        0x200 <= base_page(ss) <= 0x100_0000,
        base_page(0) == 0x200,
        base_page(ss + 1) == 2 * base_page(ss),
{
    reveal_with_fuel(base_page, 17);
}

/// The greedy split of at most [`max_units`] units leaves nothing over.
proof fn lemma_units_after(units: int)
    requires
        0 <= units,
    ensures
        0 <= units_after(units, 1) <= units,
        0 <= units_after(units, 2) <= units,
        0 <= units_after(units, 3) <= units,
        0 <= units_after(units, 4) <= units,
        0 <= units_after(units, 5) <= units,
        0 <= units_after(units, 6) <= units,
        0 <= units_after(units, 7) <= units,
        0 <= units_after(units, 8) <= units,
        0 <= units_after(units, 9) <= units,
        units_after(units, 9) == 0 <==> units <= max_units(),
        forall|stage: int| 1 <= stage <= 9 ==> 0 <= #[trigger] taken(units, stage) <= cap_of(stage),
{
    reveal_with_fuel(units_after, 2);
    assert forall|stage: int| 1 <= stage <= 9 implies 0 <= #[trigger] taken(units, stage) <= cap_of(
        stage,
    ) by {
        assert(stage == 1 || stage == 2 || stage == 3 || stage == 4 || stage == 5 || stage == 6
            || stage == 7 || stage == 8 || stage == 9);
    }
}

/// A flag word made of page counts reads back as those counts.
proof fn lemma_fields(
    f: u32,
    ss: u32,
    n1: u32,
    n2: u32,
    n3: u32,
    n4: u32,
    n5: u32,
    n6: u32,
    n7: u32,
    n8: u32,
    n9: u32,
)
    by (bit_vector)
    requires
        ss < 16,
        n1 <= 1,
        n2 <= 3,
        n3 <= 15,
        n4 <= 63,
        n5 <= 127,
        n6 <= 1,
        n7 <= 1,
        n8 <= 1,
        n9 <= 1,
        f == ss + 0x10 * n1 + 0x20 * n2 + 0x80 * n3 + 0x800 * n4 + 0x2_0000 * n5 + 0x100_0000 * n6
            + 0x200_0000 * n7 + 0x400_0000 * n8 + 0x800_0000 * n9,
    ensures
        f % 0x10 == ss,
        f / 0x10 % 2 == n1,
        f / 0x20 % 4 == n2,
        f / 0x80 % 0x10 == n3,
        f / 0x800 % 0x40 == n4,
        f / 0x2_0000 % 0x80 == n5,
        f / 0x100_0000 % 2 == n6,
        f / 0x200_0000 % 2 == n7,
        f / 0x400_0000 % 2 == n8,
        f / 0x800_0000 % 2 == n9,
        f < 0x1000_0000,
{
}

/// What each stage takes, and the word that the counts make.
proof fn lemma_split(units: int)
    requires
        0 <= units,
    ensures
        units_after(units, 0) == units,
        units_after(units, 1) == units - 256 * taken(units, 1),
        units_after(units, 2) == units_after(units, 1) - 128 * taken(units, 2),
        units_after(units, 3) == units_after(units, 2) - 64 * taken(units, 3),
        units_after(units, 4) == units_after(units, 3) - 32 * taken(units, 4),
        units_after(units, 5) == units_after(units, 4) - 16 * taken(units, 5),
        units_after(units, 6) == units_after(units, 5) - 8 * taken(units, 6),
        units_after(units, 7) == units_after(units, 6) - 4 * taken(units, 7),
        units_after(units, 8) == units_after(units, 7) - 2 * taken(units, 8),
        units_after(units, 9) == units_after(units, 8) - taken(units, 9),
        counts_word(units, 9) == 0x10 * taken(units, 1) + 0x20 * taken(units, 2) + 0x80 * taken(
            units,
            3,
        ) + 0x800 * taken(units, 4) + 0x2_0000 * taken(units, 5) + 0x100_0000 * taken(units, 6)
            + 0x200_0000 * taken(units, 7) + 0x400_0000 * taken(units, 8) + 0x800_0000 * taken(
            units,
            9,
        ),
{
    assert(counts_word(units, 0) == 0);
    assert(counts_word(units, 1) == 0x10 * taken(units, 1));
    assert(counts_word(units, 2) == counts_word(units, 1) + 0x20 * taken(units, 2));
    assert(counts_word(units, 3) == counts_word(units, 2) + 0x80 * taken(units, 3));
    assert(counts_word(units, 4) == counts_word(units, 3) + 0x800 * taken(units, 4));
    assert(counts_word(units, 5) == counts_word(units, 4) + 0x2_0000 * taken(units, 5));
    assert(counts_word(units, 6) == counts_word(units, 5) + 0x100_0000 * taken(units, 6));
    assert(counts_word(units, 7) == counts_word(units, 6) + 0x200_0000 * taken(units, 7));
    assert(counts_word(units, 8) == counts_word(units, 7) + 0x400_0000 * taken(units, 8));
    assert(counts_word(units, 9) == counts_word(units, 8) + 0x800_0000 * taken(units, 9));
}

/// A flag word made of the counts for `units` describes `units`.
proof fn lemma_counts_word(units: int, ss: int)
    requires
        0 <= units <= max_units(),
        0 <= ss < 16,
    ensures
        0 <= counts_word(units, 9) <= 0x1000_0000 - 0x10,
        page_units((ss + counts_word(units, 9)) as u32) == units,
        (ss + counts_word(units, 9)) % 0x10 == ss,
        ss + counts_word(units, 9) < 0x1000_0000,
{
    lemma_units_after(units);
    lemma_split(units);
    assert(0 <= taken(units, 1) <= 1 && 0 <= taken(units, 2) <= 3 && 0 <= taken(units, 3) <= 15
        && 0 <= taken(units, 4) <= 63 && 0 <= taken(units, 5) <= 127);
    assert(0 <= taken(units, 6) <= 1 && 0 <= taken(units, 7) <= 1 && 0 <= taken(units, 8) <= 1
        && 0 <= taken(units, 9) <= 1);
    reveal(page_units);
    lemma_fields(
        (ss + counts_word(units, 9)) as u32,
        ss as u32,
        taken(units, 1) as u32,
        taken(units, 2) as u32,
        taken(units, 3) as u32,
        taken(units, 4) as u32,
        taken(units, 5) as u32,
        taken(units, 6) as u32,
        taken(units, 7) as u32,
        taken(units, 8) as u32,
        taken(units, 9) as u32,
    );
}

proof fn lemma_version_fields(f: u32, flags: u32, nibble: u32)
    by (bit_vector)
    requires
        flags < 0x1000_0000,
        nibble < 0x10,
        f == flags + nibble * 0x1000_0000,
    ensures
        f % 0x10 == flags % 0x10,
        f / 0x10 % 2 == flags / 0x10 % 2,
        f / 0x20 % 4 == flags / 0x20 % 4,
        f / 0x80 % 0x10 == flags / 0x80 % 0x10,
        f / 0x800 % 0x40 == flags / 0x800 % 0x40,
        f / 0x2_0000 % 0x80 == flags / 0x2_0000 % 0x80,
        f / 0x100_0000 % 2 == flags / 0x100_0000 % 2,
        f / 0x200_0000 % 2 == flags / 0x200_0000 % 2,
        f / 0x400_0000 % 2 == flags / 0x400_0000 % 2,
        f / 0x800_0000 % 2 == flags / 0x800_0000 % 2,
{
}

/// The version nibbles above the page counts do not change the size.
pub proof fn law_version_keeps_size(flags: u32, nibble: u32)
    requires
        flags < 0x1000_0000,
        nibble < 0x10,
    ensures
        section_size(versioned(flags, nibble)) == section_size(flags),
        versioned(flags, nibble) == flags + nibble * 0x1000_0000,
        versioned(flags, nibble) / 0x1000_0000 == nibble,
{
    reveal(page_units);
    lemma_version_fields((flags + nibble * 0x1000_0000) as u32, flags, nibble);
}

/// A flag word without page counts describes nothing.
pub proof fn lemma_no_pages()
    ensures
        section_size(0) == 0,
{
    reveal(page_units);
    assert(page_units(0) == 0);
}

/// Rounding up a quotient.
pub proof fn lemma_ceil_div(n: int, d: int)
    requires
        0 <= n,
        0 < d,
    ensures
        0 <= ceil_div(n, d),
        n <= d * ceil_div(n, d) < n + d,
        n > 0 ==> ceil_div(n, d) > 0,
{
    let c = ceil_div(n, d);
    assert(0 <= c && n <= d * c < n + d) by (nonlinear_arith)
        requires
            d > 0,
            n >= 0,
            c == (n + d - 1) / d,
    ;
    if n > 0 && c == 0 {
        assert(d * c == 0) by (nonlinear_arith)
            requires
                c == 0,
        ;
    }
}

/// The flag word for a size describes a section that holds it, padded by
/// less than one page of its base size.
pub proof fn law_size_flags_hold_the_size(size: int)
    requires
        0 <= size,
        section_fits(size),
    ensures
        section_size(size_flags(size)) == padded_size(size),
        size_flags(size) < 0x1000_0000,
        size <= padded_size(size) < size + base_page((size_flags(size) % 0x10) as int),
{
    lemma_fitting_base(size, 0);
    let ss = fitting_base(size, 0);
    lemma_base_page(ss);
    let base = base_page(ss);
    let units = ceil_div(size, base);
    lemma_ceil_div(size, base);
    lemma_counts_word(units, ss);
}

proof fn lemma_fitting_base(size: int, ss: int)
    requires
        0 <= ss <= 16,
    ensures
        ss <= fitting_base(size, ss) <= 16,
        fitting_base(size, ss) < 16 ==> base_fits(size, fitting_base(size, ss)),
    decreases 16 - ss,
{
    if ss < 16 && !base_fits(size, ss) {
        lemma_fitting_base(size, ss + 1);
    }
}

proof fn lemma_first_candidate(page_size: int, count: int, k: int)
    requires
        0 <= k <= 144,
    ensures
        k <= first_candidate(page_size, count, k) <= 144,
        first_candidate(page_size, count, k) < 144 ==> candidate_matches(
            page_size,
            count,
            first_candidate(page_size, count, k),
        ),
    decreases 144 - k,
{
    if k < 144 && !candidate_matches(page_size, count, k) {
        lemma_first_candidate(page_size, count, k + 1);
    }
}

/// The flag word for equal pages describes exactly those pages.
pub proof fn law_page_flags_are_exact(page_size: int, count: int)
    requires
        0 <= count,
        page_flags(page_size, count) is Some,
    ensures
        section_size(page_flags(page_size, count)->0) == page_size * count,
        page_flags(page_size, count)->0 < 0x1000_0000,
        page_count(page_flags(page_size, count)->0) == count,
{
    lemma_first_candidate(page_size, count, 0);
    let k = first_candidate(page_size, count, 0);
    let ss = candidate_base(k);
    let st = candidate_stage(k);
    assert(0 <= ss < 16 && 1 <= st <= 9);
    let f = (ss + weight_of(st) * count) as u32;
    assert(f % 0x10 == ss && page_units(f) == page_of(st) * count && page_count(f) == count && f
        < 0x1000_0000) by {
        lemma_one_count(ss, st, count);
    }
    let base = base_page(ss);
    assert(base * (page_of(st) * count) == (base * page_of(st)) * count) by (nonlinear_arith);
}

proof fn lemma_one_count(ss: int, st: int, count: int)
    requires
        0 <= ss < 16,
        1 <= st <= 9,
        0 <= count <= cap_of(st),
    ensures
        ss + weight_of(st) * count < 0x1000_0000,
        (ss + weight_of(st) * count) % 0x10 == ss,
        page_units((ss + weight_of(st) * count) as u32) == page_of(st) * count,
        page_count((ss + weight_of(st) * count) as u32) == count,
{
    let f = (ss + weight_of(st) * count) as u32;
    let n = |k: int| if k == st { count as u32 } else { 0u32 };
    reveal(page_units);
    reveal(page_count);
    assert(f == ss + 0x10 * n(1) + 0x20 * n(2) + 0x80 * n(3) + 0x800 * n(4) + 0x2_0000 * n(5)
        + 0x100_0000 * n(6) + 0x200_0000 * n(7) + 0x400_0000 * n(8) + 0x800_0000 * n(9));
    lemma_fields(f, ss as u32, n(1), n(2), n(3), n(4), n(5), n(6), n(7), n(8), n(9));
}

/// The resource version that two flag words hold.
pub open spec fn version_in(sys_flags: u32, gfx_flags: u32) -> int {
    sys_flags / 0x1000_0000 * 16 + gfx_flags / 0x1000_0000
}

/// A version comes back from the two flag words that hold its halves, whatever
/// pages they describe.
pub proof fn law_versions_read_back(sys_flags: u32, gfx_flags: u32, version: u32)
    requires
        sys_flags < 0x1000_0000,
        gfx_flags < 0x1000_0000,
        version < 0x100,
    ensures
        version_in(
            versioned(sys_flags, version / 16),
            versioned(gfx_flags, version % 16),
        ) == version,
{
    law_version_keeps_size(sys_flags, version / 16);
    law_version_keeps_size(gfx_flags, version % 16);
}

/// The resource version encoded in the two RSC7 flag words (system nibble
/// high, graphics nibble low), e.g. 165 for a .ydr.
pub fn resource_version_from_flags(sys_flags: u32, gfx_flags: u32) -> (v: u32)
    ensures
        v == sys_flags / 0x1000_0000 * 16 + gfx_flags / 0x1000_0000,
        v == version_in(sys_flags, gfx_flags),
{
    sys_flags / 0x1000_0000 * 16 + gfx_flags / 0x1000_0000
}

/// The page size for the low nibble of a flag word.
fn base_size(ss: u32) -> (r: u64)
    requires
        ss < 16,
    ensures
        r == base_page(ss as int),
        0x200 <= r <= 0x100_0000,
{
    let mut r: u64 = 0x200;
    let mut i: u32 = 0;
    while i < ss
        invariant
            i <= ss < 16,
            r == base_page(i as int),
            0x200 <= r <= 0x100_0000,
        decreases ss - i,
    {
        proof {
            lemma_base_page(i as int);
            lemma_base_page(i + 1);
        }
        r = r * 2;
        i += 1;
    }
    r
}

/// The byte size of the section that `flags` describes, wide enough for any
/// flag word on any machine.
fn wide_size(flags: u32) -> (r: u64)
    ensures
        r == section_size(flags),
        r <= 0x100_0000 * 5663,
{
    let units: u32 = flags / 0x800_0000 % 2 + 2 * (flags / 0x400_0000 % 2) + 4 * (flags / 0x200_0000
        % 2) + 8 * (flags / 0x100_0000 % 2) + 16 * (flags / 0x2_0000 % 0x80) + 32 * (flags / 0x800
        % 0x40) + 64 * (flags / 0x80 % 0x10) + 128 * (flags / 0x20 % 4) + 256 * (flags / 0x10 % 2);
    proof {
        reveal(page_units);
    }
    let base = base_size(flags % 0x10);
    assert(base * units <= 0x100_0000 * 5663) by (nonlinear_arith)
        requires
            base <= 0x100_0000,
            units <= 5663,
    ;
    base * units as u64
}

/// Decodes an RSC7 flag word into the byte size of the section it describes.
pub fn resource_size_from_flags(flags: u32) -> (r: usize)
    requires
        section_size(flags) <= usize::MAX,
    ensures
        r == section_size(flags),
{
    wide_size(flags) as usize
}

/// How many pages a flag word describes.
pub fn rsc7_page_count(flags: u32) -> (n: usize)
    ensures
        n == page_count(flags),
{
    reveal(page_count);
    (flags / 0x800_0000 % 2 + flags / 0x400_0000 % 2 + flags / 0x200_0000 % 2 + flags / 0x100_0000
        % 2 + flags / 0x2_0000 % 0x80 + flags / 0x800 % 0x40 + flags / 0x80 % 0x10 + flags / 0x20
        % 4 + flags / 0x10 % 2) as usize
}

/// As many of `units` as pages of `page` units, at most `cap`, hold.
fn take_pages(units: u64, page: u64, cap: u64) -> (n: u64)
    requires
        page > 0,
    ensures
        n == least((units / page) as int, cap as int),
        n <= cap,
        n * page <= units,
{
    let q = units / page;
    let n: u64 = if q < cap {
        q
    } else {
        cap
    };
    assert(n * page <= units) by (nonlinear_arith)
        requires
            n <= q,
            q == units / page,
            page > 0,
    ;
    n
}

/// `n` divided by `d`, rounded up.
fn div_ceil(n: u64, d: u64) -> (r: u64)
    requires
        d > 0,
    ensures
        r == ceil_div(n as int, d as int),
{
    let q = n / d;
    let rest = n % d;
    proof {
        vstd::arithmetic::div_mod::lemma_fundamental_div_mod(n as int, d as int);
        let qd = q * d;
        assert(d * q == qd) by (nonlinear_arith)
            requires
                qd == q * d,
        ;
        if rest == 0 {
            vstd::arithmetic::div_mod::lemma_fundamental_div_mod_converse(
                n + d - 1,
                d as int,
                q as int,
                d - 1,
            );
        } else {
            assert((q + 1) * d == qd + d) by (nonlinear_arith)
                requires
                    qd == q * d,
            ;
            vstd::arithmetic::div_mod::lemma_fundamental_div_mod_converse(
                n + d - 1,
                d as int,
                q + 1,
                rest - 1,
            );
            assert(q < u64::MAX) by (nonlinear_arith)
                requires
                    q * d + rest == n,
                    rest > 0,
                    d > 0,
                    n <= u64::MAX,
            ;
        }
    }
    if rest == 0 {
        q
    } else {
        q + 1
    }
}

/// The flag word for `units` pages of base size `ss`, largest pages first.
#[verifier::rlimit(60)]
fn flags_for_units(ss: u32, units: u64) -> (r: u32)
    requires
        ss < 16,
        units <= 5663,
    ensures
        r == ss + counts_word(units as int, 9),
{
    proof {
        lemma_counts_word(units as int, ss as int);
        lemma_split(units as int);
    }
    let n1 = take_pages(units, 256, 1);
    let u1: u64 = units - n1 * 256;
    assert(n1 == taken(units as int, 1));
    let n2 = take_pages(u1, 128, 3);
    let u2: u64 = u1 - n2 * 128;
    assert(n2 == taken(units as int, 2));
    let n3 = take_pages(u2, 64, 15);
    let u3: u64 = u2 - n3 * 64;
    assert(n3 == taken(units as int, 3));
    let n4 = take_pages(u3, 32, 63);
    let u4: u64 = u3 - n4 * 32;
    assert(n4 == taken(units as int, 4));
    let n5 = take_pages(u4, 16, 127);
    let u5: u64 = u4 - n5 * 16;
    assert(n5 == taken(units as int, 5));
    let n6 = take_pages(u5, 8, 1);
    let u6: u64 = u5 - n6 * 8;
    assert(n6 == taken(units as int, 6));
    let n7 = take_pages(u6, 4, 1);
    let u7: u64 = u6 - n7 * 4;
    assert(n7 == taken(units as int, 7));
    let n8 = take_pages(u7, 2, 1);
    let u8: u64 = u7 - n8 * 2;
    assert(n8 == taken(units as int, 8));
    let n9 = take_pages(u8, 1, 1);
    assert(n9 == taken(units as int, 9));
    (ss as u64 + 0x10 * n1 + 0x20 * n2 + 0x80 * n3 + 0x800 * n4 + 0x2_0000 * n5 + 0x100_0000 * n6
        + 0x200_0000 * n7 + 0x400_0000 * n8 + 0x800_0000 * n9) as u32
}

/// The RSC7 flag word describing the smallest page set (largest pages first,
/// per-size counts capped as the format caps them) that holds `size` bytes.
/// The size it encodes is what [`resource_size_from_flags`] returns, so
/// callers pad their section to that.
pub fn rsc7_flags_for_size(size: usize) -> (r: Result<u32, ResourceError>)
    ensures
        match r {
            Ok(flags) => section_fits(size as int) && flags == size_flags(size as int),
            Err(e) => !section_fits(size as int) && e == ResourceError::TooLarge(size),
        },
{
    let mut ss: u32 = 0;
    while ss < 16
        invariant
            ss <= 16,
            fitting_base(size as int, 0) == fitting_base(size as int, ss as int),
        decreases 16 - ss,
    {
        let base = base_size(ss);
        let units = div_ceil(size as u64, base);
        if units <= 5663 {
            return Ok(flags_for_units(ss, units));
        }
        ss += 1;
    }
    Err(ResourceError::TooLarge(size))
}

/// The page size in units, the cap and the weight of candidate `k` modulo
/// nine.
fn candidate(j: u32) -> (r: (u64, u64, u32))
    requires
        j < 9,
    ensures
        r.0 == page_of(9 - j),
        r.1 == cap_of(9 - j),
        r.2 == weight_of(9 - j),
        r.0 <= 256,
{
    if j == 0 {
        (1, 1, 0x800_0000)
    } else if j == 1 {
        (2, 1, 0x400_0000)
    } else if j == 2 {
        (4, 1, 0x200_0000)
    } else if j == 3 {
        (8, 1, 0x100_0000)
    } else if j == 4 {
        (16, 127, 0x2_0000)
    } else if j == 5 {
        (32, 63, 0x800)
    } else if j == 6 {
        (64, 15, 0x80)
    } else if j == 7 {
        (128, 3, 0x20)
    } else {
        (256, 1, 0x10)
    }
}

/// The flag word for `count` pages of exactly `page_size` bytes each (a
/// power of two times 0x200). Every block in the section must then sit
/// inside one page: the game maps pages as separate allocations.
pub fn rsc7_flags_for_pages(page_size: usize, count: usize) -> (r: Result<u32, ResourceError>)
    ensures
        match r {
            Ok(flags) => page_flags(page_size as int, count as int) == Some(flags),
            Err(e) => page_flags(page_size as int, count as int) is None
                && e == (ResourceError::Pages { count, page_size }),
        },
{
    let mut k: u32 = 0;
    while k < 144
        invariant
            k <= 144,
            first_candidate(page_size as int, count as int, 0) == first_candidate(
                page_size as int,
                count as int,
                k as int,
            ),
        decreases 144 - k,
    {
        let base = base_size(k / 9);
        let (units, cap, weight) = candidate(k % 9);
        assert(base * units <= 0x100_0000 * 256) by (nonlinear_arith)
            requires
                base <= 0x100_0000,
                units <= 256,
        ;
        if base * units == page_size as u64 && count as u64 <= cap {
            proof {
                lemma_one_count((k / 9) as int, 9 - k % 9, count as int);
            }
            assert(weight * count < 0x1000_0000 && weight * count >= 0);
            return Ok(k / 9 + weight * count as u32);
        }
        k += 1;
    }
    Err(ResourceError::Pages { count, page_size })
}

// ─── the two address spaces ──────────────────────────────────────────────────

/// The two sections of a resource, by the addresses that point into them.
pub struct ResReader<'a> {
    pub system: &'a [u8],
    pub graphics: &'a [u8],
}

/// Which section an address points into.
#[derive(Debug, Clone, Copy, PartialEq, Eq, Structural)]
pub enum Section {
    System,
    Graphics,
}

/// Header of a `atArray`/pointer-list style structure: a pointer to the
/// backing array, followed by a `u16` count and a `u16` capacity.
#[derive(Debug, Clone, Copy, PartialEq, Eq, Structural)]
pub struct PointerListHeader {
    pub pointer: u64,
    pub count: u16,
    pub capacity: u16,
}

/// The section and the offset that a virtual address stands for. Both bases
/// share bit 30; bit 29 marks graphics and bit 28 system, and an address
/// with all three set counts as graphics.
pub open spec fn located(va: u64) -> Option<(Section, int)> {
    if va & 0x6000_0000 == 0x6000_0000 {
        Some((Section::Graphics, va - 0x6000_0000))
    } else if va & 0x5000_0000 == 0x5000_0000 {
        Some((Section::System, va - 0x5000_0000))
    } else {
        None
    }
}

/// The `len` bytes at `off`, where they all lie in `s`.
pub open spec fn window(s: Seq<u8>, off: int, len: int) -> Option<Seq<u8>> {
    if 0 <= off && 0 <= len && off + len <= s.len() {
        Some(s.subrange(off, off + len))
    } else {
        None
    }
}

/// The `len` bytes that an address points at, where all of them lie in the
/// section it points into.
pub open spec fn resolved(system: Seq<u8>, graphics: Seq<u8>, va: u64, len: int) -> Option<
    Seq<u8>,
> {
    if va == 0 {
        None
    } else {
        match located(va) {
            Some((Section::System, off)) => window(system, off, len),
            Some((Section::Graphics, off)) => window(graphics, off, len),
            None => None,
        }
    }
}

/// The little-endian `u16`s that `s` starts with.
pub open spec fn le16_list(s: Seq<u8>, n: nat) -> Seq<u16> {
    Seq::new(n, |i: int| crate::bytes::le16(s, 2 * i))
}

/// The little-endian `u32`s that `s` starts with.
pub open spec fn le32_list(s: Seq<u8>, n: nat) -> Seq<u32> {
    Seq::new(n, |i: int| crate::bytes::le32(s, 4 * i))
}

/// The little-endian `u64`s that `s` starts with.
pub open spec fn le64_list(s: Seq<u8>, n: nat) -> Seq<u64> {
    Seq::new(n, |i: int| crate::bytes::le64(s, 8 * i))
}

/// The first zero byte of `s` from `i` on, before `limit`.
pub open spec fn nul_before(s: Seq<u8>, i: int, limit: int) -> Option<int>
    decreases limit - i,
{
    if i >= limit || i >= s.len() {
        None
    } else if s[i] == 0 {
        Some(i)
    } else {
        nul_before(s, i + 1, limit)
    }
}

/// The string that starts at `off` in `s`: the text before the first NUL,
/// where one comes within the first [`MAX_STRING_LEN`] bytes.
pub open spec fn string_in(s: Seq<u8>, off: int) -> Option<Seq<char>> {
    if off > s.len() {
        None
    } else {
        match nul_before(s, off, off + 256) {
            Some(end) => Some(crate::text::lossy_text(s.subrange(off, end))),
            None => None,
        }
    }
}

/// The bytes behind an optional slice.
pub open spec fn view_of(r: Option<&[u8]>) -> Option<Seq<u8>> {
    match r {
        Some(s) => Some(s@),
        None => None,
    }
}

/// The text behind an optional string.
pub open spec fn text_of(r: Option<String>) -> Option<Seq<char>> {
    match r {
        Some(s) => Some(s@),
        None => None,
    }
}

impl<'a> ResReader<'a> {
    /// The bytes at an address; see [`resolved`].
    pub open spec fn at(&self, va: u64, len: int) -> Option<Seq<u8>> {
        resolved(self.system@, self.graphics@, va, len)
    }

    /// Which section a virtual address points into, and the offset within it.
    fn locate(&self, va: u64) -> (r: Option<(Section, u64)>)
        ensures
            match r {
                Some((s, off)) => located(va) == Some((s, off as int)),
                None => located(va) is None,
            },
    {
        assert(va & 0x6000_0000 == 0x6000_0000 ==> va >= 0x6000_0000) by (bit_vector);
        assert(va & 0x5000_0000 == 0x5000_0000 ==> va >= 0x5000_0000) by (bit_vector);
        if va & GRAPHICS_BASE == GRAPHICS_BASE {
            Some((Section::Graphics, va - GRAPHICS_BASE))
        } else if va & SYSTEM_BASE == SYSTEM_BASE {
            Some((Section::System, va - SYSTEM_BASE))
        } else {
            None
        }
    }

    /// The bytes of one section.
    fn section(&self, which: Section) -> (r: &'a [u8])
        ensures
            r@ == (match which {
                Section::System => self.system@,
                Section::Graphics => self.graphics@,
            }),
    {
        match which {
            Section::System => self.system,
            Section::Graphics => self.graphics,
        }
    }

    /// The `len` bytes at a virtual address, if it points into a section
    /// that holds that many from there on.
    pub fn resolve(&self, va: u64, len: usize) -> (r: Option<&'a [u8]>)
        ensures
            view_of(r) == self.at(va, len as int),
    {
        if va == 0 {
            return None;
        }
        match self.locate(va) {
            Some((which, off)) => {
                let s = self.section(which);
                if off > s.len() as u64 || len > s.len() - off as usize {
                    None
                } else {
                    Some(slice_subrange(s, off as usize, off as usize + len))
                }
            },
            None => None,
        }
    }

    /// The `count` elements of `stride` bytes at a virtual address.
    pub fn resolve_array(&self, va: u64, count: usize, stride: usize) -> (r: Option<&'a [u8]>)
        ensures
            view_of(r) == self.at(va, count * stride),
    {
        match count.checked_mul(stride) {
            Some(len) => self.resolve(va, len),
            None => {
                assert(self.system.len() <= usize::MAX && self.graphics.len() <= usize::MAX);
                None
            },
        }
    }

    /// Like [`Self::resolve`], but distinguishes a null pointer (`va == 0`,
    /// returns `Some(None)`) from an out-of-bounds pointer (`None`).
    pub fn resolve_optional(&self, va: u64, len: usize) -> (r: Option<Option<&'a [u8]>>)
        ensures
            match r {
                Some(Some(s)) => self.at(va, len as int) == Some(s@),
                Some(None) => va == 0,
                None => va != 0 && self.at(va, len as int) is None,
            },
    {
        if va == 0 {
            return Some(None);
        }
        match self.resolve(va, len) {
            Some(s) => Some(Some(s)),
            None => None,
        }
    }

    /// The `count` little-endian `u16`s at an address; none of a null one.
    pub fn read_u16_list(&self, va: u64, count: usize) -> (r: Option<Vec<u16>>)
        ensures
            match r {
                Some(v) => if count == 0 || va == 0 {
                    v@ == Seq::<u16>::empty()
                } else {
                    self.at(va, 2 * count) is Some && v@ == le16_list(
                        self.at(va, 2 * count)->0,
                        count as nat,
                    )
                },
                None => count != 0 && va != 0 && self.at(va, 2 * count) is None,
            },
    {
        if count == 0 || va == 0 {
            return Some(Vec::new());
        }
        let bytes = match self.resolve_array(va, count, 2) {
            Some(b) => b,
            None => {
                return None;
            },
        };
        let mut out: Vec<u16> = Vec::new();
        let mut i: usize = 0;
        while i < count
            invariant
                i <= count,
                bytes@.len() == 2 * count,
                out@ == le16_list(bytes@, i as nat),
            decreases count - i,
        {
            assert(2 * count <= bytes.len());
            out.push(u16_le(bytes, 2 * i));
            i += 1;
            assert(out@ =~= le16_list(bytes@, i as nat));
        }
        Some(out)
    }

    /// The `count` little-endian `u32`s at an address; none of a null one.
    pub fn read_u32_list(&self, va: u64, count: usize) -> (r: Option<Vec<u32>>)
        ensures
            match r {
                Some(v) => if count == 0 || va == 0 {
                    v@ == Seq::<u32>::empty()
                } else {
                    self.at(va, 4 * count) is Some && v@ == le32_list(
                        self.at(va, 4 * count)->0,
                        count as nat,
                    )
                },
                None => count != 0 && va != 0 && self.at(va, 4 * count) is None,
            },
    {
        if count == 0 || va == 0 {
            return Some(Vec::new());
        }
        let bytes = match self.resolve_array(va, count, 4) {
            Some(b) => b,
            None => {
                return None;
            },
        };
        let mut out: Vec<u32> = Vec::new();
        let mut i: usize = 0;
        while i < count
            invariant
                i <= count,
                bytes@.len() == 4 * count,
                out@ == le32_list(bytes@, i as nat),
            decreases count - i,
        {
            assert(4 * count <= bytes.len());
            out.push(u32_le(bytes, 4 * i));
            i += 1;
            assert(out@ =~= le32_list(bytes@, i as nat));
        }
        Some(out)
    }

    /// The `count` little-endian `u64`s at an address; none of a null one.
    pub fn read_u64_list(&self, va: u64, count: usize) -> (r: Option<Vec<u64>>)
        ensures
            match r {
                Some(v) => if count == 0 || va == 0 {
                    v@ == Seq::<u64>::empty()
                } else {
                    self.at(va, 8 * count) is Some && v@ == le64_list(
                        self.at(va, 8 * count)->0,
                        count as nat,
                    )
                },
                None => count != 0 && va != 0 && self.at(va, 8 * count) is None,
            },
    {
        if count == 0 || va == 0 {
            return Some(Vec::new());
        }
        let bytes = match self.resolve_array(va, count, 8) {
            Some(b) => b,
            None => {
                return None;
            },
        };
        let mut out: Vec<u64> = Vec::new();
        let mut i: usize = 0;
        while i < count
            invariant
                i <= count,
                bytes@.len() == 8 * count,
                out@ == le64_list(bytes@, i as nat),
            decreases count - i,
        {
            assert(8 * count <= bytes.len());
            out.push(u64_le(bytes, 8 * i));
            i += 1;
            assert(out@ =~= le64_list(bytes@, i as nat));
        }
        Some(out)
    }

    /// Reads a 16-byte pointer-list header: pointer@0, count@8, capacity@10.
    pub fn read_pointer_list_header(&self, va: u64) -> (r: Option<PointerListHeader>)
        ensures
            r == match self.at(va, 16) {
                Some(b) => Some(
                    PointerListHeader {
                        pointer: crate::bytes::le64(b, 0),
                        count: crate::bytes::le16(b, 8),
                        capacity: crate::bytes::le16(b, 10),
                    },
                ),
                None => None,
            },
    {
        match self.resolve(va, 16) {
            Some(b) => Some(
                PointerListHeader {
                    pointer: u64_le(b, 0),
                    count: u16_le(b, 8),
                    capacity: u16_le(b, 10),
                },
            ),
            None => None,
        }
    }

    /// The NUL-terminated string at a system address. Names only ever live
    /// in the system section; a graphics address is treated as unresolved,
    /// and so is a string with no NUL in its first [`MAX_STRING_LEN`] bytes.
    pub fn string_at(&self, va: u64) -> (r: Option<String>)
        ensures
            text_of(r) == match located(va) {
                Some((Section::System, off)) => string_in(self.system@, off),
                _ => None,
            },
    {
        let off: u64 = match self.locate(va) {
            Some((Section::System, off)) => off,
            _ => {
                return None;
            },
        };
        if off > self.system.len() as u64 {
            return None;
        }
        let start = off as usize;
        let mut i: usize = start;
        while i < self.system.len() && i - start < MAX_STRING_LEN
            invariant
                start <= i <= self.system@.len(),
                located(va) == Some((Section::System, start as int)),
                i - start <= 256,
                nul_before(self.system@, start as int, start + 256) == nul_before(
                    self.system@,
                    i as int,
                    start + 256,
                ),
            decreases self.system@.len() - i,
        {
            if self.system[i] == 0 {
                assert(nul_before(self.system@, i as int, start + 256) == Some(i as int));
                return Some(from_utf8_lossy(slice_subrange(self.system, start, i)));
            }
            i += 1;
        }
        None
    }
}

/// The little-endian `u16` at `off`.
pub fn u16_le(b: &[u8], off: usize) -> (r: u16)
    requires
        off + 2 <= b@.len(),
    ensures
        r == crate::bytes::le16(b@, off as int),
{
    assert(off + 2 <= b.len());
    b[off] as u16 + 0x100 * b[off + 1] as u16
}

/// The little-endian `u32` at `off`.
pub fn u32_le(b: &[u8], off: usize) -> (r: u32)
    requires
        off + 4 <= b@.len(),
    ensures
        r == crate::bytes::le32(b@, off as int),
{
    assert(off + 4 <= b.len());
    b[off] as u32 + 0x100 * b[off + 1] as u32 + 0x1_0000 * b[off + 2] as u32 + 0x100_0000 * b[off
        + 3] as u32
}

/// The little-endian `u64` at `off`.
pub fn u64_le(b: &[u8], off: usize) -> (r: u64)
    requires
        off + 8 <= b@.len(),
    ensures
        r == crate::bytes::le64(b@, off as int),
{
    assert(off + 8 <= b.len());
    u32_le(b, off) as u64 + 0x1_0000_0000 * u32_le(b, off + 4) as u64
}

/// The bits of the single at `off`.
pub fn f32_le(b: &[u8], off: usize) -> (r: u32)
    requires
        off + 4 <= b@.len(),
    ensures
        r == crate::bytes::le32(b@, off as int),
{
    u32_le(b, off)
}

/// The three singles at `off`.
pub open spec fn vec3_at(s: Seq<u8>, off: int) -> Vec3 {
    Vec3 {
        x: crate::bytes::le32(s, off),
        y: crate::bytes::le32(s, off + 4),
        z: crate::bytes::le32(s, off + 8),
    }
}

/// The four singles at `off`.
pub open spec fn vec4_at(s: Seq<u8>, off: int) -> Vec4 {
    Vec4 {
        x: crate::bytes::le32(s, off),
        y: crate::bytes::le32(s, off + 4),
        z: crate::bytes::le32(s, off + 8),
        w: crate::bytes::le32(s, off + 12),
    }
}

/// The three singles at `off`, by their bits.
pub fn vec3_le(b: &[u8], off: usize) -> (r: Vec3)
    requires
        off + 12 <= b@.len(),
    ensures
        r == vec3_at(b@, off as int),
{
    assert(off + 12 <= b.len());
    Vec3::new(f32_le(b, off), f32_le(b, off + 4), f32_le(b, off + 8))
}

/// The four singles at `off`, by their bits.
pub fn vec4_le(b: &[u8], off: usize) -> (r: Vec4)
    requires
        off + 16 <= b@.len(),
    ensures
        r == vec4_at(b@, off as int),
{
    assert(off + 16 <= b.len());
    Vec4::new(f32_le(b, off), f32_le(b, off + 4), f32_le(b, off + 8), f32_le(b, off + 12))
}

// ─── the container ───────────────────────────────────────────────────────────

/// What the inflation of a body came to.
pub enum Inflated {
    /// The stream was read to its end and gave these bytes.
    Done(Vec<u8>),
    /// The stream broke after this many bytes.
    Failed(usize),
}

/// The model of [`Inflated`].
pub enum InflatedView {
    Done(Seq<u8>),
    Failed(nat),
}

impl View for Inflated {
    type V = InflatedView;

    open spec fn view(&self) -> InflatedView {
        match self {
            Inflated::Done(v) => InflatedView::Done(v@),
            Inflated::Failed(n) => InflatedView::Failed(*n as nat),
        }
    }
}

/// What a raw deflate stream inflates to, where it can be read to its end.
pub uninterp spec fn inflated(body: Seq<u8>) -> Option<Seq<u8>>;

/// The raw deflate stream that the encoder makes of some bytes.
pub uninterp spec fn deflated(body: Seq<u8>) -> Seq<u8>;

/// `flate2::read::DeflateDecoder`, read to its end. Where the decoder reads
/// to the end without an error, the bytes are what the body inflates to;
/// where it fails, how many bytes came before the failure is not stated.
#[verifier::external_body]
fn inflate(body: &[u8]) -> (r: Inflated)
    ensures
        match inflated(body@) {
            Some(out) => r@ == InflatedView::Done(out),
            None => r@ is Failed,
        },
{
    let mut out = Vec::new();
    match DeflateDecoder::new(body).read_to_end(&mut out) {
        Ok(_) => Inflated::Done(out),
        Err(_) => Inflated::Failed(out.len()),
    }
}

/// `flate2::write::DeflateEncoder` at its best compression: the stream it
/// writes inflates to the bytes it was given.
#[verifier::external_body]
fn deflate(body: &[u8]) -> (r: Vec<u8>)
    ensures
        r@ == deflated(body@),
        inflated(r@) == Some(body@),
{
    let mut enc = DeflateEncoder::new(Vec::new(), Compression::best());
    std::io::Write::write_all(&mut enc, body).expect("writing to a Vec cannot fail");
    enc.finish().expect("writing to a Vec cannot fail")
}

/// The flag words of a resource file.
pub open spec fn header_of(data: Seq<u8>) -> Result<(u32, u32), ResourceError> {
    if data.len() < 16 {
        Err(ResourceError::TooShort)
    } else if crate::bytes::le32(data, 0) != RSC7_MAGIC {
        Err(ResourceError::BadMagic(crate::bytes::le32(data, 0)))
    } else {
        Ok((crate::bytes::le32(data, 8), crate::bytes::le32(data, 12)))
    }
}

/// The bytes that the sections are cut from: the inflated body, or the body
/// itself where it inflates to nothing.
pub open spec fn unpacked(body: Seq<u8>, outcome: InflatedView) -> Option<Seq<u8>> {
    match outcome {
        InflatedView::Done(out) => if out.len() > 0 {
            Some(out)
        } else {
            Some(body)
        },
        InflatedView::Failed(n) => if n == 0 {
            Some(body)
        } else {
            None
        },
    }
}

/// The two sections of a body, by their sizes. The graphics section takes
/// what is left where the body holds less than its size.
pub open spec fn sections(
    body: Seq<u8>,
    outcome: InflatedView,
    sys_size: int,
    gfx_size: int,
) -> Result<(Seq<u8>, Seq<u8>), ResourceError> {
    match (unpacked(body, outcome), outcome) {
        (Some(out), _) => if out.len() < sys_size {
            Err(ResourceError::ShortSystem { have: out.len() as usize, need: sys_size as u64 })
        } else {
            Ok(
                (
                    out.take(sys_size),
                    out.subrange(sys_size, least(out.len() as int, sys_size + gfx_size)),
                ),
            )
        },
        (None, InflatedView::Failed(n)) => Err(
            ResourceError::Corrupt { inflated: n as usize, expected: (sys_size + gfx_size) as u64 },
        ),
        (None, InflatedView::Done(_)) => arbitrary(),
    }
}

/// What a resource file unpacks to, given what its body inflated to.
pub open spec fn unpacked_file(data: Seq<u8>, outcome: InflatedView) -> Result<
    (Seq<u8>, Seq<u8>),
    ResourceError,
> {
    match header_of(data) {
        Ok((sys_flags, gfx_flags)) => sections(
            data.skip(16),
            outcome,
            section_size(sys_flags),
            section_size(gfx_flags),
        ),
        Err(e) => Err(e),
    }
}

/// The two sections behind a result.
pub open spec fn sections_view(r: Result<(Vec<u8>, Vec<u8>), ResourceError>) -> Result<
    (Seq<u8>, Seq<u8>),
    ResourceError,
> {
    match r {
        Ok((s, g)) => Ok((s@, g@)),
        Err(e) => Err(e),
    }
}

/// Whether `r` is what the file unpacks to. It is determined wherever the
/// header is bad or the body inflates to its end; where the stream breaks it
/// depends on how much came out before.
pub open spec fn unpacks_to(
    data: Seq<u8>,
    r: Result<(Seq<u8>, Seq<u8>), ResourceError>,
) -> bool {
    match (header_of(data), inflated(data.skip(16))) {
        (Ok(_), Some(out)) => r == unpacked_file(data, InflatedView::Done(out)),
        (Ok(_), None) => exists|n: nat| r == #[trigger] unpacked_file(data, InflatedView::Failed(n)),
        (Err(e), _) => r == Err::<(Seq<u8>, Seq<u8>), ResourceError>(e),
    }
}

/// Whether a file is an escrowed asset, which only the game can open.
pub fn is_fxap(data: &[u8]) -> (r: bool)
    ensures
        r == (data@.len() >= 4 && crate::bytes::le32(data@, 0) == FXAP_MAGIC),
{
    data.len() >= 4 && u32_le(data, 0) == FXAP_MAGIC
}

/// Reads the two flag words, having checked the header.
pub fn read_header(data: &[u8]) -> (r: Result<(u32, u32), ResourceError>)
    ensures
        r == header_of(data@),
{
    if data.len() < 16 {
        return Err(ResourceError::TooShort);
    }
    let magic = u32_le(data, 0);
    if magic != RSC7_MAGIC {
        return Err(ResourceError::BadMagic(magic));
    }
    Ok((u32_le(data, 8), u32_le(data, 12)))
}

/// Cuts the two sections out of a body, given what it inflated to.
pub fn split_sections(body: &[u8], outcome: Inflated, sys_size: u64, gfx_size: u64) -> (r: Result<
    (Vec<u8>, Vec<u8>),
    ResourceError,
>)
    requires
        sys_size + gfx_size <= u64::MAX,
    ensures
        sections_view(r) == sections(body@, outcome@, sys_size as int, gfx_size as int),
{
    let out: Vec<u8> = match outcome {
        Inflated::Done(v) => if v.len() > 0 {
            v
        } else {
            to_vec(body)
        },
        Inflated::Failed(n) => {
            if n > 0 {
                return Err(
                    ResourceError::Corrupt { inflated: n, expected: sys_size + gfx_size },
                );
            }
            to_vec(body)
        },
    };
    if (out.len() as u64) < sys_size {
        return Err(ResourceError::ShortSystem { have: out.len(), need: sys_size });
    }
    let cut = sys_size as usize;
    let end: usize = if out.len() as u64 >= sys_size + gfx_size {
        (sys_size + gfx_size) as usize
    } else {
        out.len()
    };
    let system = to_vec(slice_subrange(out.as_slice(), 0, cut));
    let graphics = to_vec(slice_subrange(out.as_slice(), cut, end));
    assert(system@ =~= out@.take(cut as int));
    Ok((system, graphics))
}

/// Whether a file unpacks to these two sections and to nothing else.
pub open spec fn holds(data: Seq<u8>, system: Seq<u8>, graphics: Seq<u8>) -> bool {
    forall|r: Result<(Seq<u8>, Seq<u8>), ResourceError>|
        #[trigger] unpacks_to(data, r) <==> r == Ok::<(Seq<u8>, Seq<u8>), ResourceError>(
            (system, graphics),
        )
}

/// Decompresses a resource file into its system and graphics sections.
pub fn prepare_rsc7(data: &[u8]) -> (r: Result<(Vec<u8>, Vec<u8>), ResourceError>)
    ensures
        unpacks_to(data@, sections_view(r)),
{
    let (system_flags, graphics_flags) = match read_header(data) {
        Ok(f) => f,
        Err(e) => {
            return Err(e);
        },
    };
    let body = slice_subrange(data, 16, data.len());
    assert(body@ =~= data@.skip(16));
    let outcome = inflate(body);
    let ghost seen = outcome@;
    let r = split_sections(body, outcome, wide_size(system_flags), wide_size(graphics_flags));
    proof {
        if let InflatedView::Failed(n) = seen {
            assert(sections_view(r) == unpacked_file(data@, InflatedView::Failed(n)));
        }
    }
    r
}

/// The bytes of a resource file: the header, then the compressed sections.
pub open spec fn file_bytes(version: u32, sys_flags: u32, gfx_flags: u32, body: Seq<u8>) -> Seq<
    u8,
> {
    crate::bytes::le32_bytes(RSC7_MAGIC) + crate::bytes::le32_bytes(version)
        + crate::bytes::le32_bytes(sys_flags) + crate::bytes::le32_bytes(gfx_flags) + deflated(body)
}

/// Wraps a body in the header that its flags describe.
fn wrap_rsc7(version: u32, sys_flags: u32, gfx_flags: u32, body: &[u8]) -> (r: Vec<u8>)
    ensures
        r@ == file_bytes(version, sys_flags, gfx_flags, body@),
        header_of(r@) == Ok::<(u32, u32), ResourceError>((sys_flags, gfx_flags)),
        inflated(r@.skip(16)) == Some(body@),
{
    let mut out: Vec<u8> = Vec::new();
    push_u32_le(&mut out, RSC7_MAGIC);
    push_u32_le(&mut out, version);
    push_u32_le(&mut out, sys_flags);
    push_u32_le(&mut out, gfx_flags);
    let ghost head = out@;
    let packed = deflate(body);
    push_bytes(&mut out, packed.as_slice());
    assert(out@ =~= file_bytes(version, sys_flags, gfx_flags, body@));
    assert(out@.skip(16) =~= packed@);
    proof {
        crate::bytes::law_u32_round_trip(RSC7_MAGIC);
        crate::bytes::law_u32_round_trip(sys_flags);
        crate::bytes::law_u32_round_trip(gfx_flags);
        assert(crate::bytes::le32(out@, 0) == crate::bytes::le32(
            crate::bytes::le32_bytes(RSC7_MAGIC),
            0,
        ));
        assert(crate::bytes::le32(out@, 8) == crate::bytes::le32(
            crate::bytes::le32_bytes(sys_flags),
            0,
        ));
        assert(crate::bytes::le32(out@, 12) == crate::bytes::le32(
            crate::bytes::le32_bytes(gfx_flags),
            0,
        ));
    }
    out
}

/// A section, padded with zeros to `size`.
pub open spec fn padded(s: Seq<u8>, size: int) -> Seq<u8> {
    s + crate::bytes::zeros(size - s.len())
}

/// The flag word of a section of this many bytes with a version nibble.
pub open spec fn versioned(flags: u32, nibble: u32) -> u32 {
    (flags + nibble * 0x1000_0000) as u32
}

/// A file whose body inflates to two sections of the sizes that its flags
/// describe unpacks to those sections.
pub proof fn law_file_unpacks_to_its_sections(
    file: Seq<u8>,
    sys_flags: u32,
    gfx_flags: u32,
    system: Seq<u8>,
    graphics: Seq<u8>,
)
    requires
        header_of(file) == Ok::<(u32, u32), ResourceError>((sys_flags, gfx_flags)),
        inflated(file.skip(16)) == Some(system + graphics),
        system.len() == section_size(sys_flags) > 0,
        graphics.len() == section_size(gfx_flags),
    ensures
        holds(file, system, graphics),
{
    let out = system + graphics;
    assert(out.take(system.len() as int) =~= system);
    assert(out.subrange(system.len() as int, out.len() as int) =~= graphics);
}

/// [`build_rsc7`] for a system section laid out in equal pages of
/// `page_size` bytes (no graphics section): the section is padded to a
/// whole number of pages and the flags describe exactly those pages.
pub fn build_rsc7_paged(version: u32, system: &[u8], page_size: usize) -> (r: Result<
    Vec<u8>,
    ResourceError,
>)
    requires
        page_size > 0,
        system@.len() + page_size <= usize::MAX,
    ensures
        ({
            let pages = if system@.len() == 0 {
                1
            } else {
                ceil_div(system@.len() as int, page_size as int)
            };
            match (r, page_flags(page_size as int, pages)) {
                (Ok(file), Some(flags)) => {
                    &&& file@ == file_bytes(
                        version,
                        versioned(flags, version / 16 % 16),
                        versioned(0, version % 16),
                        padded(system@, page_size * pages),
                    )
                    &&& holds(file@, padded(system@, page_size * pages), Seq::<u8>::empty())
                    &&& version < 256 ==> (versioned(flags, version / 16 % 16) / 0x1000_0000 * 16
                        + versioned(0, version % 16) / 0x1000_0000) == version
                },
                (Err(e), None) => e == (ResourceError::Pages { count: pages as usize, page_size }),
                _ => false,
            }
        }),
{
    proof {
        lemma_ceil_div(system@.len() as int, page_size as int);
        lemma_ceil_div(1, page_size as int);
        assert(ceil_div(1, page_size as int) == 1) by (nonlinear_arith)
            requires
                page_size > 0,
                ceil_div(1, page_size as int) == (1 + page_size - 1) / (page_size as int),
        ;
        let c = ceil_div(system@.len() as int, page_size as int);
        assert(page_size * c >= c) by (nonlinear_arith)
            requires
                page_size > 0,
                c >= 0,
        ;
    }
    let pages: usize = if system.len() == 0 {
        1
    } else {
        div_ceil(system.len() as u64, page_size as u64) as usize
    };
    assert(pages * page_size == page_size * pages) by (nonlinear_arith);
    match rsc7_flags_for_pages(page_size, pages) {
        Ok(flags) => {
            proof {
                law_page_flags_are_exact(page_size as int, pages as int);
                lemma_no_pages();
            }
            let mut body = to_vec(system);
            pad_to(&mut body, pages * page_size);
            let none: Vec<u8> = Vec::new();
            assert(body@ + none@ =~= body@);
            assert(none@ =~= Seq::<u8>::empty());
            let file = build_rsc7_with_flags(version, flags, body.as_slice(), 0, none.as_slice());
            Ok(file)
        },
        Err(e) => Err(e),
    }
}

/// [`build_rsc7`] for two sections whose pages are laid out already: the
/// flag words describe exactly the bytes that are there.
#[verifier::rlimit(40)]
pub fn build_rsc7_with_flags(
    version: u32,
    system_flags: u32,
    system: &[u8],
    graphics_flags: u32,
    graphics: &[u8],
) -> (file: Vec<u8>)
    requires
        system_flags < 0x1000_0000,
        graphics_flags < 0x1000_0000,
        system@.len() == section_size(system_flags) > 0,
        graphics@.len() == section_size(graphics_flags),
    ensures
        file@ == file_bytes(
            version,
            versioned(system_flags, version / 16 % 16),
            versioned(graphics_flags, version % 16),
            system@ + graphics@,
        ),
        holds(file@, system@, graphics@),
        version < 256 ==> versioned(system_flags, version / 16 % 16) / 0x1000_0000 * 16 + versioned(
            graphics_flags,
            version % 16,
        ) / 0x1000_0000 == version,
{
    let high: u32 = version / 16 % 16;
    let low: u32 = version % 16;
    assert(high < 16 && low < 16 && (version < 256 ==> high * 16 + low == version));
    proof {
        law_version_keeps_size(system_flags, high);
        law_version_keeps_size(graphics_flags, low);
    }
    let sys_flags: u32 = system_flags + high * 0x1000_0000;
    let gfx_flags: u32 = graphics_flags + low * 0x1000_0000;
    let mut body = to_vec(system);
    push_bytes(&mut body, graphics);
    let file = wrap_rsc7(version, sys_flags, gfx_flags, body.as_slice());
    proof {
        law_file_unpacks_to_its_sections(file@, sys_flags, gfx_flags, system@, graphics@);
    }
    file
}

/// Whether two sections of these sizes can stand in one file.
pub open spec fn sections_fit(system: int, graphics: int) -> bool {
    &&& section_fits(system)
    &&& section_fits(graphics)
    &&& padded_size(system) + padded_size(graphics) <= usize::MAX
}

/// The larger of a size and one: an empty system section takes a page.
pub open spec fn at_least_one(n: int) -> int {
    if n < 1 {
        1
    } else {
        n
    }
}

/// The flag word, with a version nibble, and the padded size of a section.
fn padded_flags(len: usize, nibble: u32) -> (r: (u32, usize))
    requires
        section_fits(len as int),
        padded_size(len as int) <= usize::MAX,
        nibble < 16,
    ensures
        r.0 == versioned(size_flags(len as int), nibble),
        r.1 == padded_size(len as int),
        r.1 == section_size(r.0),
        r.1 >= len,
        r.0 / 0x1000_0000 == nibble,
{
    proof {
        law_size_flags_hold_the_size(len as int);
        law_version_keeps_size(size_flags(len as int), nibble);
    }
    let plain: u32 = match rsc7_flags_for_size(len) {
        Ok(f) => f,
        Err(_) => 0,
    };
    let flags: u32 = plain + nibble * 0x1000_0000;
    (flags, resource_size_from_flags(flags))
}

/// Wraps a system (and optional graphics) section in an RSC7 header with the
/// given resource version and a deflated body, padding each section to the
/// page layout its flags describe. Version is the pair of nibbles
/// [`resource_version_from_flags`] reads back (e.g. 2 for a .ynv, 165 for a
/// .ydr).
#[verifier::rlimit(60)]
#[verifier::spinoff_prover]
pub fn build_rsc7(version: u32, system: &[u8], graphics: &[u8]) -> (file: Vec<u8>)
    requires
        sections_fit(at_least_one(system@.len() as int), graphics@.len() as int),
    ensures
        ({
            let sys_size = padded_size(at_least_one(system@.len() as int));
            let gfx_size = if graphics@.len() == 0 {
                0
            } else {
                padded_size(graphics@.len() as int)
            };
            let sys_flags = versioned(
                size_flags(at_least_one(system@.len() as int)),
                version / 16 % 16,
            );
            let gfx_flags = versioned(
                if graphics@.len() == 0 {
                    0
                } else {
                    size_flags(graphics@.len() as int)
                },
                version % 16,
            );
            &&& file@ == file_bytes(
                version,
                sys_flags,
                gfx_flags,
                padded(system@, sys_size) + padded(graphics@, gfx_size),
            )
            &&& holds(file@, padded(system@, sys_size), padded(graphics@, gfx_size))
            &&& version < 256 ==> sys_flags / 0x1000_0000 * 16 + gfx_flags / 0x1000_0000 == version
        }),
{
    proof {
        lemma_no_pages();
        law_version_keeps_size(0, version % 16);
        law_size_flags_hold_the_size(graphics@.len() as int);
    }
    let want: usize = if system.len() < 1 {
        1
    } else {
        system.len()
    };
    proof {
        law_size_flags_hold_the_size(want as int);
    }
    let (sys_flags, sys_size) = padded_flags(want, version / 16 % 16);
    let (gfx_flags, gfx_size) = if graphics.len() == 0 {
        (version % 16 * 0x1000_0000, 0)
    } else {
        padded_flags(graphics.len(), version % 16)
    };
    let mut body = to_vec(system);
    pad_to(&mut body, sys_size);
    push_bytes(&mut body, graphics);
    pad_to(&mut body, sys_size + gfx_size);
    let ghost s = padded(system@, sys_size as int);
    let ghost g = padded(graphics@, gfx_size as int);
    assert(body@ =~= s + g);
    let file = wrap_rsc7(version, sys_flags, gfx_flags, body.as_slice());
    proof {
        law_file_unpacks_to_its_sections(file@, sys_flags, gfx_flags, s, g);
    }
    file
}

} // verus!
