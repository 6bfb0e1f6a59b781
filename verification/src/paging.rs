//! Lays the blocks of a section out in pages. The game maps every page as an
//! allocation of its own, so no block may lie across the edge of one.

use vstd::prelude::*;

use crate::resource::{rsc7_flags_for_pages, ResourceError};

verus! {

/// The smallest page that blocks are laid out in.
pub const FIRST_PAGE: u64 = 0x2000;

/// How often the page size is doubled before giving up.
pub const PAGE_SIZES: u32 = 17;

/// The most pages of one size that a flag word describes.
pub const MOST_PAGES: u32 = 127;

/// Where the blocks of a section stand, and the flag word of its pages.
#[derive(Debug, PartialEq, Eq)]
pub struct PagedLayout {
    pub flags: u32,
    pub offsets: Vec<usize>,
    /// The byte size of all pages.
    pub size: usize,
}

// ─── the model ───────────────────────────────────────────────────────────────

/// A size rounded up to sixteen.
pub open spec fn round16(n: int) -> int {
    (n + 15) / 16 * 16
}

/// Where a block goes that comes after `pos` bytes: there, or at the next
/// page where it would lie across an edge.
pub open spec fn placed(pos: int, size: int, page: int) -> int {
    if pos % page + round16(size) > page {
        pos - pos % page + page
    } else {
        pos
    }
}

/// Where the first `k` blocks end.
pub open spec fn end_of(sizes: Seq<usize>, page: int, k: nat) -> int
    decreases k,
{
    if k == 0 {
        0
    } else {
        placed(end_of(sizes, page, (k - 1) as nat), sizes[k - 1] as int, page) + round16(
            sizes[k - 1] as int,
        )
    }
}

/// Where block `i` starts.
pub open spec fn start_of(sizes: Seq<usize>, page: int, i: int) -> int {
    placed(end_of(sizes, page, i as nat), sizes[i] as int, page)
}

/// How many pages all blocks take, one at least.
pub open spec fn pages_of(sizes: Seq<usize>, page: int) -> int {
    crate::resource::at_least_one(
        crate::resource::ceil_div(end_of(sizes, page, sizes.len()), page),
    )
}

/// Whether every block fits a page.
pub open spec fn all_fit(sizes: Seq<usize>, page: int) -> bool {
    forall|i: int| 0 <= i < sizes.len() ==> round16(#[trigger] sizes[i] as int) <= page
}

/// Whether the blocks can be laid out in pages of this size.
pub open spec fn page_works(sizes: Seq<usize>, page: int, max_pages: int) -> bool {
    &&& all_fit(sizes, page)
    &&& pages_of(sizes, page) <= max_pages
    &&& pages_of(sizes, page) <= MOST_PAGES
    &&& page * pages_of(sizes, page) <= usize::MAX
    &&& crate::resource::page_flags(page, pages_of(sizes, page)) is Some
}

/// The page size after `k` doublings.
pub open spec fn page_size(k: int) -> int
    decreases k,
{
    if k <= 0 {
        FIRST_PAGE as int
    } else {
        2 * page_size(k - 1)
    }
}

/// The first page size from `k` doublings on that works, if one does.
pub open spec fn page_for(sizes: Seq<usize>, max_pages: int, k: int) -> Option<int>
    decreases PAGE_SIZES - k,
{
    if k >= PAGE_SIZES {
        None
    } else if page_works(sizes, page_size(k), max_pages) {
        Some(page_size(k))
    } else {
        page_for(sizes, max_pages, k + 1)
    }
}

/// Where the blocks stand: the flag word, the start of each, and the size of
/// all pages.
pub open spec fn paged(sizes: Seq<usize>, max_pages: int) -> Option<(u32, Seq<int>, int)> {
    match page_for(sizes, max_pages, 0) {
        Some(page) => Some(
            (
                crate::resource::page_flags(page, pages_of(sizes, page))->0,
                Seq::new(sizes.len(), |i: int| start_of(sizes, page, i)),
                page * pages_of(sizes, page),
            ),
        ),
        None => None,
    }
}

proof fn lemma_page_sizes(k: int)
    requires
        0 <= k <= PAGE_SIZES,
    ensures
        page_size(k) % 0x2000 == 0,
        0x2000 <= page_size(k) <= 0x4000_0000,
{
    reveal_with_fuel(page_size, 18);
}

proof fn lemma_placed(pos: int, size: int, page: int)
    requires
        0 <= pos,
        pos % 16 == 0,
        0 <= size,
        round16(size) <= page,
        page > 0,
        page % 16 == 0,
    ensures
        pos <= placed(pos, size, page) < pos + page,
        placed(pos, size, page) % 16 == 0,
        placed(pos, size, page) % page + round16(size) <= page,
        size <= round16(size) < size + 16,
        round16(size) % 16 == 0,
{
    let r = pos % page;
    assert(0 <= r < page && r <= pos && pos - r == page * (pos / page)) by (nonlinear_arith)
        requires
            page > 0,
            pos >= 0,
            r == pos % page,
    ;
    if r + round16(size) > page {
        let q = pos / page;
        assert((page * q + page) % page == 0 && (page * q + page) % 16 == 0) by (nonlinear_arith)
            requires
                page > 0,
                page % 16 == 0,
        {
            vstd::arithmetic::div_mod::lemma_mod_multiples_basic(q + 1, page);
            assert(page * q + page == (q + 1) * page);
            let m = page / 16;
            assert(page == 16 * m);
            assert((q + 1) * page == (q + 1) * (16 * m));
            assert((q + 1) * (16 * m) == ((q + 1) * m) * 16);
            vstd::arithmetic::div_mod::lemma_mod_multiples_basic((q + 1) * m, 16);
        }
    }
}

proof fn lemma_ends(sizes: Seq<usize>, page: int, i: nat, j: nat)
    requires
        i <= j <= sizes.len(),
        all_fit(sizes, page),
        page > 0,
        page % 16 == 0,
    ensures
        0 <= end_of(sizes, page, i) <= end_of(sizes, page, j),
        end_of(sizes, page, j) % 16 == 0,
    decreases j,
{
    if j > 0 {
        lemma_ends(sizes, page, (j - 1) as nat, (j - 1) as nat);
        lemma_placed(end_of(sizes, page, (j - 1) as nat), sizes[j - 1] as int, page);
        if i < j {
            lemma_ends(sizes, page, i, (j - 1) as nat);
        }
    }
}

proof fn lemma_page_for(sizes: Seq<usize>, max_pages: int, k: int)
    requires
        0 <= k,
        page_for(sizes, max_pages, k) is Some,
    ensures
        ({
            let page = page_for(sizes, max_pages, k)->0;
            page_works(sizes, page, max_pages) && page % 16 == 0 && 0x2000 <= page <= 0x4000_0000
        }),
    decreases PAGE_SIZES - k,
{
    lemma_page_sizes(k);
    if !page_works(sizes, page_size(k), max_pages) {
        lemma_page_for(sizes, max_pages, k + 1);
    }
}

/// A layout keeps its promises: every block starts at a multiple of sixteen
/// and ends inside the section, no block lies across the edge of a page, the
/// blocks lie apart and in order, and the flag word describes exactly the
/// pages.
pub proof fn law_blocks_lie_apart_in_pages(sizes: Seq<usize>, max_pages: int, i: int, j: int)
    requires
        paged(sizes, max_pages) is Some,
        0 <= i < j < sizes.len() || 0 <= i == j < sizes.len(),
    ensures
        ({
            let (flags, starts, size) = paged(sizes, max_pages)->0;
            let page = page_for(sizes, max_pages, 0)->0;
            &&& starts.len() == sizes.len()
            &&& 0 <= starts[i]
            &&& starts[i] % 16 == 0
            &&& starts[j] + sizes[j] <= size
            &&& starts[i] % page + sizes[i] <= page
            &&& i < j ==> starts[i] + sizes[i] <= starts[j]
        }),
{
    let page = page_for(sizes, max_pages, 0)->0;
    lemma_page_for(sizes, max_pages, 0);
    lemma_ends(sizes, page, i as nat, i as nat);
    lemma_ends(sizes, page, j as nat, j as nat);
    lemma_placed(end_of(sizes, page, i as nat), sizes[i] as int, page);
    lemma_placed(end_of(sizes, page, j as nat), sizes[j] as int, page);
    if i < j {
        lemma_ends(sizes, page, (i + 1) as nat, j as nat);
    }
    lemma_ends(sizes, page, (j + 1) as nat, sizes.len());
    let end = end_of(sizes, page, sizes.len());
    crate::resource::lemma_ceil_div(end, page);
    let c = crate::resource::ceil_div(end, page);
    assert(page * crate::resource::at_least_one(c) >= page * c) by (nonlinear_arith)
        requires
            page > 0,
            crate::resource::at_least_one(c) >= c,
    ;
}

/// The flag word of a layout describes exactly its pages.
pub proof fn law_layout_flags_are_exact(sizes: Seq<usize>, max_pages: int)
    requires
        paged(sizes, max_pages) is Some,
    ensures
        ({
            let (flags, starts, size) = paged(sizes, max_pages)->0;
            &&& crate::resource::section_size(flags) == size
            &&& flags < 0x1000_0000
            &&& 0 < size <= usize::MAX
            &&& 0 < crate::resource::page_count(flags) <= max_pages
        }),
{
    let page = page_for(sizes, max_pages, 0)->0;
    lemma_page_for(sizes, max_pages, 0);
    let n = pages_of(sizes, page);
    crate::resource::law_page_flags_are_exact(page, n);
    assert(page * n > 0) by (nonlinear_arith)
        requires
            page > 0,
            n > 0,
    ;
}

/// How large a block and a layout can be.
pub proof fn lemma_layout_bounds(sizes: Seq<usize>, max_pages: int)
    requires
        paged(sizes, max_pages) is Some,
    ensures
        forall|i: int| 0 <= i < sizes.len() ==> #[trigger] sizes[i] <= 0x4000_0000,
        (paged(sizes, max_pages)->0).2 <= 0x4000_0000 * 127,
{
    let page = page_for(sizes, max_pages, 0)->0;
    lemma_page_for(sizes, max_pages, 0);
    assert forall|i: int| 0 <= i < sizes.len() implies #[trigger] sizes[i] <= 0x4000_0000 by {
        assert(round16(sizes[i] as int) <= page);
    }
    let n = pages_of(sizes, page);
    assert(page * n <= 0x4000_0000 * 127) by (nonlinear_arith)
        requires
            0 <= page <= 0x4000_0000,
            0 <= n <= 127,
    ;
}

/// A layout takes no more pages than a flag word describes.
pub proof fn lemma_page_limit(sizes: Seq<usize>, max_pages: int)
    requires
        paged(sizes, max_pages) is Some,
    ensures
        crate::resource::page_count((paged(sizes, max_pages)->0).0) <= MOST_PAGES,
{
    let page = page_for(sizes, max_pages, 0)->0;
    lemma_page_for(sizes, max_pages, 0);
    crate::resource::law_page_flags_are_exact(page, pages_of(sizes, page));
}

// ─── the packer ──────────────────────────────────────────────────────────────

/// The starts of the blocks and where the last one ends.
fn place_all(sizes: &Vec<usize>, page: u64) -> (r: Option<(Vec<u128>, u128)>)
    requires
        0x2000 <= page <= 0x4000_0000,
        page % 16 == 0,
    ensures
        match r {
            Some((starts, end)) => {
                &&& all_fit(sizes@, page as int)
                &&& end == end_of(sizes@, page as int, sizes@.len())
                &&& starts@.len() == sizes@.len()
                &&& forall|i: int|
                    0 <= i < sizes@.len() ==> #[trigger] starts@[i] == start_of(
                        sizes@,
                        page as int,
                        i,
                    )
            },
            None => !all_fit(sizes@, page as int),
        },
{
    let mut starts: Vec<u128> = Vec::new();
    let mut pos: u128 = 0;
    let mut k: usize = 0;
    while k < sizes.len()
        invariant
            k <= sizes@.len(),
            0x2000 <= page <= 0x4000_0000,
            page % 16 == 0,
            pos == end_of(sizes@, page as int, k as nat),
            pos % 16 == 0,
            pos <= k * 0x8000_0000,
            starts@.len() == k,
            forall|i: int| 0 <= i < k ==> round16(#[trigger] sizes@[i] as int) <= page,
            forall|i: int|
                0 <= i < k ==> #[trigger] starts@[i] == start_of(sizes@, page as int, i),
        decreases sizes@.len() - k,
    {
        let size = sizes[k] as u128;
        let wide: u128 = (size + 15) / 16 * 16;
        if wide > page as u128 {
            assert(round16(sizes@[k as int] as int) > page);
            return None;
        }
        proof {
            lemma_placed(pos as int, size as int, page as int);
        }
        let over: u128 = pos % page as u128;
        let at: u128 = if over + wide > page as u128 {
            assert(over <= pos) by (nonlinear_arith)
                requires
                    over == pos % (page as u128),
                    page > 0,
            ;
            pos - over + page as u128
        } else {
            pos
        };
        assert(at == start_of(sizes@, page as int, k as int));
        starts.push(at);
        pos = at + wide;
        k += 1;
    }
    Some((starts, pos))
}

fn narrowed(starts: Vec<u128>, Ghost(size): Ghost<int>) -> (r: Vec<usize>)
    requires
        size <= usize::MAX,
        forall|i: int| 0 <= i < starts@.len() ==> 0 <= #[trigger] starts@[i] <= size,
    ensures
        r@.len() == starts@.len(),
        forall|i: int| 0 <= i < r@.len() ==> #[trigger] r@[i] == starts@[i],
{
    let mut out: Vec<usize> = Vec::new();
    let mut k: usize = 0;
    while k < starts.len()
        invariant
            k <= starts@.len(),
            out@.len() == k,
            size <= usize::MAX,
            forall|i: int| 0 <= i < starts@.len() ==> 0 <= #[trigger] starts@[i] <= size,
            forall|i: int| 0 <= i < k ==> #[trigger] out@[i] == starts@[i],
        decreases starts@.len() - k,
    {
        out.push(starts[k] as usize);
        k += 1;
    }
    out
}

fn pages_for(end: u128, page: u64) -> (n: u128)
    requires
        page > 0,
        end < 0x1_0000_0000_0000_0000_0000_0000,
    ensures
        n == crate::resource::at_least_one(crate::resource::ceil_div(end as int, page as int)),
{
    proof {
        crate::resource::lemma_ceil_div(end as int, page as int);
    }
    let c: u128 = (end + (page as u128 - 1)) / page as u128;
    assert(c == crate::resource::ceil_div(end as int, page as int));
    if c < 1 {
        1
    } else {
        c
    }
}

/// Lays blocks of these sizes out, in order, in pages of one size: the
/// smallest that takes `max_pages` pages at most and that a flag word can
/// describe.
pub fn pack_pages(sizes: &Vec<usize>, max_pages: usize) -> (r: Result<PagedLayout, ResourceError>)
    ensures
        match r {
            Ok(layout) => {
                &&& paged(sizes@, max_pages as int) is Some
                &&& ({
                    let (flags, starts, size) = paged(sizes@, max_pages as int)->0;
                    &&& layout.flags == flags
                    &&& layout.size == size
                    &&& layout.offsets@.len() == sizes@.len()
                    &&& forall|i: int|
                        0 <= i < sizes@.len() ==> #[trigger] layout.offsets@[i] == starts[i]
                })
            },
            Err(e) => paged(sizes@, max_pages as int) is None && e == ResourceError::NoPageLayout(
                sizes@.len() as usize,
            ),
        },
{
    let mut k: u32 = 0;
    let mut page: u64 = FIRST_PAGE;
    while k < PAGE_SIZES
        invariant
            k <= PAGE_SIZES,
            page == page_size(k as int),
            page_for(sizes@, max_pages as int, 0) == page_for(sizes@, max_pages as int, k as int),
        decreases PAGE_SIZES - k,
    {
        proof {
            lemma_page_sizes(k as int);
        }
        if let Some((starts, end)) = place_all(sizes, page) {
            proof {
                lemma_end_bound(sizes@, page as int, sizes@.len());
            }
            assert(sizes@.len() <= usize::MAX) by {
                assert(sizes.len() <= usize::MAX);
            }
            let n = pages_for(end, page);
            if n <= max_pages as u128 && n <= MOST_PAGES as u128 {
                assert(page * n <= 0x4000_0000 * 127) by (nonlinear_arith)
                    requires
                        page <= 0x4000_0000,
                        n <= 127,
                ;
                let size: u128 = page as u128 * n;
                assert(size == page * pages_of(sizes@, page as int));
                if size <= usize::MAX as u128 {
                    if let Ok(flags) = rsc7_flags_for_pages(page as usize, n as usize) {
                        proof {
                            assert(page_works(sizes@, page as int, max_pages as int));
                            assert forall|i: int| 0 <= i < starts@.len() implies 0
                                <= #[trigger] starts@[i] <= size by {
                                law_blocks_lie_apart_in_pages(sizes@, max_pages as int, i, i);
                            }
                        }
                        let offsets = narrowed(starts, Ghost(size as int));
                        return Ok(PagedLayout { flags, offsets, size: size as usize });
                    }
                }
            } else {
                assert(!page_works(sizes@, page as int, max_pages as int));
            }
        }
        page = 2 * page;
        k += 1;
    }
    Err(ResourceError::NoPageLayout(sizes.len()))
}

proof fn lemma_end_bound(sizes: Seq<usize>, page: int, k: nat)
    requires
        k <= sizes.len(),
        all_fit(sizes, page),
        0x2000 <= page <= 0x4000_0000,
        page % 16 == 0,
    ensures
        0 <= end_of(sizes, page, k) <= k * 0x8000_0000,
    decreases k,
{
    if k > 0 {
        lemma_end_bound(sizes, page, (k - 1) as nat);
        lemma_ends(sizes, page, (k - 1) as nat, (k - 1) as nat);
        lemma_placed(end_of(sizes, page, (k - 1) as nat), sizes[k - 1] as int, page);
    }
}

// ─── the section ─────────────────────────────────────────────────────────────

/// A section of `size` zeros with the first `k` of some pieces in their
/// places.
pub open spec fn laid(size: int, starts: Seq<int>, pieces: Seq<Seq<u8>>, k: nat) -> Seq<u8>
    decreases k,
{
    if k == 0 {
        crate::bytes::zeros(size)
    } else {
        crate::bytes::splice(
            laid(size, starts, pieces, (k - 1) as nat),
            starts[k - 1],
            pieces[k - 1],
        )
    }
}

/// Whether pieces lie inside a section, in order and apart.
pub open spec fn apart(size: int, starts: Seq<int>, pieces: Seq<Seq<u8>>) -> bool {
    &&& starts.len() == pieces.len()
    &&& forall|i: int|
        0 <= i < pieces.len() ==> 0 <= #[trigger] starts[i] && starts[i] + pieces[i].len() <= size
    &&& forall|i: int, j: int|
        0 <= i < j < pieces.len() ==> #[trigger] starts[i] + pieces[i].len()
            <= #[trigger] starts[j]
}

/// What is laid out can be read back: every piece stands in its place.
pub proof fn law_pieces_read_back(size: int, starts: Seq<int>, pieces: Seq<Seq<u8>>, k: nat, i: int)
    requires
        apart(size, starts, pieces),
        size >= 0,
        k <= pieces.len(),
    ensures
        laid(size, starts, pieces, k).len() == size,
        0 <= i < k ==> laid(size, starts, pieces, k).subrange(
            starts[i],
            starts[i] + pieces[i].len(),
        ) == pieces[i],
    decreases k,
{
    if k > 0 {
        law_pieces_read_back(size, starts, pieces, (k - 1) as nat, i);
        let before = laid(size, starts, pieces, (k - 1) as nat);
        let after = laid(size, starts, pieces, k);
        if 0 <= i < k {
            if i < k - 1 {
                assert(starts[i] + pieces[i].len() <= starts[k - 1]);
                assert(after.subrange(starts[i], starts[i] + pieces[i].len()) =~= before.subrange(
                    starts[i],
                    starts[i] + pieces[i].len(),
                ));
            } else {
                assert(after.subrange(starts[i], starts[i] + pieces[i].len()) =~= pieces[i]);
            }
        }
    }
}

/// The first block starts at the start.
pub proof fn lemma_first_start(sizes: Seq<usize>, max_pages: int)
    requires
        paged(sizes, max_pages) is Some,
        sizes.len() > 0,
    ensures
        (paged(sizes, max_pages)->0).1[0] == 0,
{
    let page = page_for(sizes, max_pages, 0)->0;
    lemma_page_for(sizes, max_pages, 0);
    assert(round16(sizes[0] as int) <= page);
    assert(0int % page == 0) by (nonlinear_arith)
        requires
            page > 0,
    ;
}

/// The bytes of some pieces.
pub open spec fn pieces_view(pieces: Seq<Vec<u8>>) -> Seq<Seq<u8>> {
    Seq::new(pieces.len(), |i: int| pieces[i]@)
}

/// The places of some pieces.
pub open spec fn places_view(starts: Seq<usize>) -> Seq<int> {
    Seq::new(starts.len(), |i: int| starts[i] as int)
}

/// Puts every piece in its place in a section.
pub fn lay_out(size: usize, starts: &Vec<usize>, pieces: &Vec<Vec<u8>>) -> (out: Vec<u8>)
    requires
        apart(size as int, places_view(starts@), pieces_view(pieces@)),
    ensures
        out@ == laid(
            size as int,
            places_view(starts@),
            pieces_view(pieces@),
            pieces@.len(),
        ),
        out@.len() == size,
{
    let ghost at = places_view(starts@);
    let ghost bytes = pieces_view(pieces@);
    let mut out: Vec<u8> = Vec::new();
    crate::bytes::pad_to(&mut out, size);
    assert(out@ =~= crate::bytes::zeros(size as int));
    let mut k: usize = 0;
    while k < pieces.len()
        invariant
            k <= pieces@.len(),
            at == places_view(starts@),
            bytes == pieces_view(pieces@),
            apart(size as int, at, bytes),
            out@ == laid(size as int, at, bytes, k as nat),
            out@.len() == size,
        decreases pieces@.len() - k,
    {
        assert(at[k as int] == starts@[k as int]);
        assert(bytes[k as int] == pieces@[k as int]@);
        crate::bytes::put_bytes(&mut out, starts[k], pieces[k].as_slice());
        k += 1;
    }
    out
}

} // verus!
