//! How many mip levels the game's own size arithmetic gets right.

use vstd::prelude::*;

use crate::ytd::TextureFormat;

verus! {

/// Whether a number is a power of two.
pub open spec fn is_power(n: int) -> bool
    decreases n,
{
    n == 1 || (n > 1 && n % 2 == 0 && is_power(n / 2))
}

/// The smallest side of a whole level: a block, or a pixel.
pub open spec fn least_side(f: TextureFormat) -> int {
    if crate::ytd::in_blocks(f) {
        4
    } else {
        1
    }
}

/// A side in blocks, or in pixels.
spec fn side(f: TextureFormat, n: u16) -> int {
    if crate::ytd::in_blocks(f) {
        crate::resource::at_least_one(crate::resource::ceil_div(n as int, 4))
    } else {
        n as int
    }
}

/// The bytes of a block, or of a pixel.
spec fn unit(f: TextureFormat) -> int {
    if crate::ytd::in_blocks(f) {
        crate::ytd::density(f)
    } else {
        crate::ytd::density(f) / 8
    }
}

/// Whether both sides can be halved and stay whole.
spec fn halves(f: TextureFormat, width: u16, height: u16) -> bool {
    width / 2 >= least_side(f) && height / 2 >= least_side(f)
}

proof fn lemma_side(f: TextureFormat, n: u16)
    requires
        is_power(n as int),
    ensures
        is_power(crate::ytd::half(n) as int),
        side(f, n) >= 1,
        side(f, crate::ytd::half(n)) >= 1,
        n / 2 >= least_side(f) ==> 2 * side(f, crate::ytd::half(n)) == side(f, n),
        n / 2 < least_side(f) ==> 2 * side(f, crate::ytd::half(n)) > side(f, n),
{
    reveal_with_fuel(is_power, 4);
    assert(n >= 8 ==> n % 8 == 0);
}

proof fn lemma_level(f: TextureFormat, width: u16, height: u16)
    ensures
        crate::ytd::level_bytes(f, width, height) == side(f, width) * side(f, height) * unit(f),
{
    if !crate::ytd::in_blocks(f) {
        let c = unit(f);
        let w = width as int;
        let h = height as int;
        assert(crate::ytd::density(f) == 8 * c);
        assert(w * (8 * c) == 8 * (w * c)) by (nonlinear_arith);
        assert(crate::resource::ceil_div(w * crate::ytd::density(f), 8) == w * c);
        assert((w * c) * h == w * h * c) by (nonlinear_arith);
    }
}

/// A level is a quarter of the one above it exactly where both sides can be
/// halved, and more than that elsewhere.
proof fn lemma_quarter(f: TextureFormat, width: u16, height: u16)
    requires
        f != TextureFormat::Unknown,
        is_power(width as int),
        is_power(height as int),
    ensures
        ({
            let all = crate::ytd::level_bytes(f, width, height);
            let next = crate::ytd::level_bytes(
                f,
                crate::ytd::half(width),
                crate::ytd::half(height),
            );
            if halves(f, width, height) {
                4 * next == all
            } else {
                4 * next > all
            }
        }),
{
    let w = crate::ytd::half(width);
    let h = crate::ytd::half(height);
    lemma_side(f, width);
    lemma_side(f, height);
    lemma_level(f, width, height);
    lemma_level(f, w, h);
    let (a, b, c) = (side(f, width), side(f, height), unit(f));
    let (x, y) = (side(f, w), side(f, h));
    assert(c >= 1);
    if halves(f, width, height) {
        assert(4 * (x * y * c) == a * b * c) by (nonlinear_arith)
            requires
                2 * x == a,
                2 * y == b,
        ;
    } else {
        assert(4 * (x * y) > a * b) by (nonlinear_arith)
            requires
                2 * x >= a,
                2 * y >= b,
                a >= 1,
                b >= 1,
                x >= 1,
                y >= 1,
                2 * x > a || 2 * y > b,
        ;
        assert(4 * (x * y * c) > a * b * c) by (nonlinear_arith)
            requires
                4 * (x * y) > a * b,
                c >= 1,
        ;
    }
}

proof fn lemma_halvings(f: TextureFormat, width: u16, height: u16, levels: int)
    ensures
        levels <= 255 ==> levels <= crate::ytd::halvings(least_side(f), width, height, levels),
    decreases 255 - levels,
{
    if halves(f, width, height) && levels < 255 {
        lemma_halvings(f, (width / 2) as u16, (height / 2) as u16, levels + 1);
    }
}

proof fn lemma_levels(f: TextureFormat, width: u16, height: u16, k: nat)
    requires
        f != TextureFormat::Unknown,
        is_power(width as int),
        is_power(height as int),
        crate::ytd::stride_of(f, width, height) * height == crate::ytd::level_bytes(
            f,
            width,
            height,
        ),
        k <= 254,
    ensures
        ({
            let full = crate::ytd::halvings(least_side(f), width, height, 1);
            let stride = crate::ytd::stride_of(f, width, height);
            let game = crate::ytd::game_level(stride, height, k);
            let dds = crate::ytd::dds_level(f, width, height, k);
            let (w, h) = (crate::ytd::halved(width, k), crate::ytd::halved(height, k));
            &&& is_power(w as int)
            &&& is_power(h as int)
            &&& k < full ==> game == dds && full == crate::ytd::halvings(
                least_side(f),
                w,
                h,
                1 + k as int,
            )
            &&& k >= full ==> game < dds
        }),
    decreases k,
{
    let full = crate::ytd::halvings(least_side(f), width, height, 1);
    lemma_halvings(f, width, height, 1);
    if k > 0 {
        let j = (k - 1) as nat;
        lemma_levels(f, width, height, j);
        let (w, h) = (crate::ytd::halved(width, j), crate::ytd::halved(height, j));
        lemma_quarter(f, w, h);
        lemma_side(f, w);
        lemma_side(f, h);
        if j < full && halves(f, w, h) {
            assert(crate::ytd::half(w) == w / 2 && crate::ytd::half(h) == h / 2);
            lemma_halvings(f, (w / 2) as u16, (h / 2) as u16, 1 + k as int);
        }
    }
}

proof fn lemma_chains(f: TextureFormat, width: u16, height: u16, n: nat)
    requires
        f != TextureFormat::Unknown,
        is_power(width as int),
        is_power(height as int),
        crate::ytd::stride_of(f, width, height) * height == crate::ytd::level_bytes(
            f,
            width,
            height,
        ),
        n <= 255,
    ensures
        ({
            let full = crate::ytd::halvings(least_side(f), width, height, 1);
            let stride = crate::ytd::stride_of(f, width, height);
            let game = crate::ytd::game_chain(stride, height, n);
            let dds = crate::ytd::dds_chain(f, width, height, n);
            if n <= full {
                game == dds
            } else {
                game < dds
            }
        }),
    decreases n,
{
    if n > 0 {
        lemma_chains(f, width, height, (n - 1) as nat);
        lemma_levels(f, width, height, (n - 1) as nat);
    } else {
        lemma_halvings(f, width, height, 1);
    }
}

/// For a texture whose sides are powers of two, the game's size arithmetic is
/// that of a DDS for as many levels as
/// [`full_mip_count`](crate::ytd::full_mip_count) says, and for no more.
pub proof fn law_full_chains_are_exact(f: TextureFormat, width: u16, height: u16, levels: u8)
    requires
        f != TextureFormat::Unknown,
        is_power(width as int),
        is_power(height as int),
        crate::ytd::stride_of(f, width, height) * height == crate::ytd::level_bytes(
            f,
            width,
            height,
        ),
    ensures
        crate::ytd::game_chain(
            crate::ytd::stride_of(f, width, height),
            height,
            levels as nat,
        ) == crate::ytd::dds_chain(f, width, height, levels as nat) <==> levels
            <= crate::ytd::halvings(least_side(f), width, height, 1),
{
    lemma_chains(f, width, height, levels as nat);
}

} // verus!
