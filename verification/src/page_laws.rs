//! What the pages of a resource can describe.

use vstd::prelude::*;

verus! {

proof fn lemma_units(flags: u32)
    ensures
        0 <= crate::resource::page_units(flags) <= crate::resource::max_units(),
{
    reveal(crate::resource::page_units);
}

/// A page size is a multiple of every smaller one.
proof fn lemma_base_multiple(a: int, b: int) -> (m: int)
    requires
        0 <= a <= b,
    ensures
        m >= 1,
        crate::resource::base_page(b) == crate::resource::base_page(a) * m,
        crate::resource::base_page(a) > 0,
    decreases b,
{
    if a == b {
        if b > 0 {
            let _ = lemma_base_multiple(a - 1, b - 1);
        }
        1
    } else {
        let n = lemma_base_multiple(a, b - 1);
        let base = crate::resource::base_page(a);
        assert(2 * (base * n) == base * (2 * n)) by (nonlinear_arith);
        2 * n
    }
}

proof fn lemma_first_base(size: int, from: int, ss: int)
    requires
        0 <= from <= ss < 16,
        crate::resource::base_fits(size, ss),
    ensures
        from <= crate::resource::fitting_base(size, from) <= ss,
    decreases ss - from,
{
    if !crate::resource::base_fits(size, from) {
        lemma_first_base(size, from + 1, ss);
    }
}

/// The flag word for a size describes the smallest section that holds so many
/// bytes: no other that does is smaller, and where there is none the size is
/// refused.
pub proof fn law_size_flags_are_smallest(size: int, flags: u32)
    requires
        0 <= size <= crate::resource::section_size(flags),
    ensures
        crate::resource::section_fits(size),
        crate::resource::section_size(crate::resource::size_flags(size))
            <= crate::resource::section_size(flags),
{
    let own = (flags % 0x10) as int;
    let units = crate::resource::page_units(flags);
    lemma_units(flags);
    let _ = lemma_base_multiple(own, own);
    let wide = crate::resource::base_page(own);
    crate::resource::lemma_ceil_div(size, wide);
    let n = crate::resource::ceil_div(size, wide);
    assert(n <= units) by (nonlinear_arith)
        requires
            size <= wide * units,
            wide * n < size + wide,
            wide > 0,
    ;
    lemma_first_base(size, 0, own);
    crate::resource::law_size_flags_hold_the_size(size);
    let ss = crate::resource::fitting_base(size, 0);
    let m = lemma_base_multiple(ss, own);
    let base = crate::resource::base_page(ss);
    crate::resource::lemma_ceil_div(size, base);
    let k = crate::resource::ceil_div(size, base);
    assert(base * k <= wide * units) by (nonlinear_arith)
        requires
            size <= wide * units,
            wide == base * m,
            base * k < size + base,
            base > 0,
    {
        assert(wide * units == base * (m * units));
        assert(k <= m * units);
    }
}

/// How many pages of the smallest size doubled `e` times a flag word counts.
pub open spec fn most_pages(e: int) -> int {
    if e < 4 {
        1
    } else if e < 20 {
        127
    } else if e == 20 {
        63
    } else if e == 21 {
        15
    } else if e == 22 {
        3
    } else {
        1
    }
}

proof fn lemma_doubled(ss: int, j: int)
    requires
        0 <= ss,
        0 <= j <= 8,
    ensures
        crate::resource::base_page(ss) * crate::resource::page_of(9 - j)
            == crate::resource::base_page(ss + j),
    decreases j,
{
    if j > 0 {
        lemma_doubled(ss, j - 1);
        let base = crate::resource::base_page(ss);
        let p = crate::resource::page_of(9 - (j - 1));
        assert(crate::resource::page_of(9 - j) == 2 * p);
        assert(base * (2 * p) == 2 * (base * p)) by (nonlinear_arith);
    }
}

proof fn lemma_candidate(page_size: int, count: int, from: int)
    requires
        0 <= from <= 144,
    ensures
        ({
            let k = crate::resource::first_candidate(page_size, count, from);
            &&& from <= k <= 144
            &&& k < 144 ==> crate::resource::candidate_matches(page_size, count, k)
        }),
    decreases 144 - from,
{
    if from < 144 && !crate::resource::candidate_matches(page_size, count, from) {
        lemma_candidate(page_size, count, from + 1);
    }
}

proof fn lemma_candidate_found(page_size: int, count: int, from: int, k: int)
    requires
        0 <= from <= k < 144,
        crate::resource::candidate_matches(page_size, count, k),
    ensures
        crate::resource::first_candidate(page_size, count, from) < 144,
    decreases k - from,
{
    if !crate::resource::candidate_matches(page_size, count, from) {
        lemma_candidate_found(page_size, count, from + 1, k);
    }
}

/// Pages can be described exactly where they are of the smallest size doubled
/// up to 23 times, and no more than a flag word counts of that size.
pub proof fn law_which_pages_are_described(page_size: int, count: int)
    requires
        0 <= count,
    ensures
        crate::resource::page_flags(page_size, count) is Some <==> exists|e: int|
            0 <= e <= 23 && page_size == #[trigger] crate::resource::base_page(e) && count
                <= most_pages(e),
{
    lemma_candidate(page_size, count, 0);
    let k = crate::resource::first_candidate(page_size, count, 0);
    if k < 144 {
        let ss = crate::resource::candidate_base(k);
        let j = k % 9;
        lemma_doubled(ss, j);
        let e = ss + j;
        assert(page_size == crate::resource::base_page(e));
        assert(count <= most_pages(e));
    }
    if exists|e: int|
        0 <= e <= 23 && page_size == #[trigger] crate::resource::base_page(e) && count
            <= most_pages(e) {
        let e = choose|e: int|
            0 <= e <= 23 && page_size == #[trigger] crate::resource::base_page(e) && count
                <= most_pages(e);
        let j: int = if e < 4 {
            0
        } else if e < 20 {
            4
        } else {
            e - 15
        };
        let ss = e - j;
        lemma_doubled(ss, j);
        let found = 9 * ss + j;
        assert(crate::resource::candidate_base(found) == ss);
        assert(crate::resource::candidate_stage(found) == 9 - j);
        lemma_candidate_found(page_size, count, 0, found);
    }
}

} // verus!
