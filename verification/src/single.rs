//! IEEE 754 singles by their bits: to and from integers.

use vstd::arithmetic::power2::{
    lemma2_to64, lemma2_to64_rest, lemma_pow2_adds, lemma_pow2_pos, lemma_pow2_strictly_increases, lemma_pow2_unfold, pow2,
};
use vstd::prelude::*;

verus! {

/// The significand of a finite single, as an integer.
pub open spec fn significand(bits: u32) -> int {
    if bits / 0x80_0000 % 0x100 == 0 {
        (bits % 0x80_0000) as int
    } else {
        bits % 0x80_0000 + 0x80_0000
    }
}

/// The power of two that the significand of a finite single is scaled by.
pub open spec fn scale(bits: u32) -> int {
    if bits / 0x80_0000 % 0x100 == 0 {
        -149
    } else {
        bits / 0x80_0000 % 0x100 - 150
    }
}

/// The magnitude of a finite single, rounded towards zero.
pub open spec fn whole_part(bits: u32) -> int {
    if scale(bits) >= 0 {
        significand(bits) * pow2(scale(bits) as nat)
    } else {
        significand(bits) / (pow2((-scale(bits)) as nat) as int)
    }
}

/// The integer that a single converts to: rounded towards zero, at most the
/// ends of the `i64` range, zero for what is no number.
pub open spec fn to_integer(bits: u32) -> i64 {
    let negative = bits >= 0x8000_0000;
    if bits / 0x80_0000 % 0x100 == 0xFF {
        if bits % 0x80_0000 != 0 {
            0
        } else if negative {
            i64::MIN
        } else {
            i64::MAX
        }
    } else if negative {
        if whole_part(bits) > 0x8000_0000_0000_0000 {
            i64::MIN
        } else {
            (-whole_part(bits)) as i64
        }
    } else {
        if whole_part(bits) > i64::MAX {
            i64::MAX
        } else {
            whole_part(bits) as i64
        }
    }
}

/// The place of the highest bit of a positive number.
pub open spec fn top_bit(m: nat) -> nat
    decreases m,
{
    if m <= 1 {
        0
    } else {
        top_bit(m / 2) + 1
    }
}

/// `m` over `2^s`, rounded to the nearest integer, halves to the even one.
pub open spec fn rounded(m: int, s: nat) -> int {
    let d = pow2(s) as int;
    let q = m / d;
    let r = m % d;
    if 2 * r > d || (2 * r == d && q % 2 == 1) {
        q + 1
    } else {
        q
    }
}

/// The bits of the single nearest to a positive number, halves to even.
pub open spec fn magnitude_bits(m: nat) -> int {
    let k = top_bit(m);
    let sig = if k <= 23 {
        (m * pow2((23 - k) as nat)) as int
    } else {
        rounded(m as int, (k - 23) as nat)
    };
    (k + 127) * 0x80_0000 + (sig - 0x80_0000)
}

/// The bits of the single nearest to an integer.
pub open spec fn from_integer(v: int) -> u32 {
    if v == 0 {
        0
    } else if v < 0 {
        (0x8000_0000 + magnitude_bits((-v) as nat)) as u32
    } else {
        magnitude_bits(v as nat) as u32
    }
}

/// `m` doubled `n` times.
fn scaled_up(m: u64, n: u32) -> (r: u64)
    requires
        m < 0x100_0000,
        n <= 39,
    ensures
        r == m * pow2(n as nat),
        r < 0x8000_0000_0000_0000,
{
    let mut r: u64 = m;
    let mut i: u32 = 0;
    proof {
        lemma2_to64();
        lemma2_to64_rest();
        assert(m * 1 == m);
    }
    while i < n
        invariant
            i <= n <= 39,
            m < 0x100_0000,
            r == m * pow2(i as nat),
            pow2(39) == 0x80_0000_0000,
            pow2(i as nat) <= 0x80_0000_0000,
        decreases n - i,
    {
        proof {
            lemma_pow2_unfold((i + 1) as nat);
            let p = pow2(i as nat) as int;
            assert(m * (2 * p) == 2 * (m * p)) by (nonlinear_arith);
            if i + 1 < 39 {
                lemma_pow2_strictly_increases((i + 1) as nat, 39);
            }
            assert(m * (2 * p) <= 0xFF_FFFF * 0x80_0000_0000) by (nonlinear_arith)
                requires
                    0 <= m <= 0xFF_FFFF,
                    0 <= 2 * p <= 0x80_0000_0000,
            ;
        }
        r = 2 * r;
        i += 1;
    }
    proof {
        let p = pow2(n as nat) as int;
        assert(m * p <= 0xFF_FFFF * 0x80_0000_0000) by (nonlinear_arith)
            requires
                0 <= m <= 0xFF_FFFF,
                0 <= p <= 0x80_0000_0000,
        ;
    }
    r
}

/// `m` halved `n` times, rounded towards zero.
fn scaled_down(m: u64, n: u32) -> (r: u64)
    ensures
        r == m as int / (pow2(n as nat) as int),
        r <= m,
{
    let mut r: u64 = m;
    let mut i: u32 = 0;
    proof {
        lemma2_to64();
        lemma2_to64_rest();
    }
    while i < n
        invariant
            i <= n,
            r == m as int / (pow2(i as nat) as int),
            r <= m,
        decreases n - i,
    {
        proof {
            lemma_pow2_unfold((i + 1) as nat);
            lemma_pow2_pos(i as nat);
            vstd::arithmetic::div_mod::lemma_div_denominator(m as int, pow2(i as nat) as int, 2);
            assert(pow2(i as nat) as int * 2 == pow2((i + 1) as nat));
        }
        r = r / 2;
        i += 1;
    }
    r
}

/// The integer that a single converts to: rounded towards zero, at most the
/// ends of the `i64` range, zero for what is no number.
pub fn single_to_i64(bits: u32) -> (r: i64)
    ensures
        r == to_integer(bits),
{
    let negative = bits >= 0x8000_0000;
    let exp = bits / 0x80_0000 % 0x100;
    let man = bits % 0x80_0000;
    if exp == 0xFF {
        return if man != 0 {
            0
        } else if negative {
            i64::MIN
        } else {
            i64::MAX
        };
    }
    let sig: u64 = if exp == 0 {
        man as u64
    } else {
        man as u64 + 0x80_0000
    };
    if exp >= 190 {
        proof {
            lemma2_to64();
            lemma2_to64_rest();
            let s = scale(bits) as nat;
            if s > 40 {
                lemma_pow2_strictly_increases(40, s);
            }
            let p = pow2(s) as int;
            assert(sig * p >= 0x80_0000 * 0x100_0000_0000) by (nonlinear_arith)
                requires
                    sig >= 0x80_0000,
                    p >= 0x100_0000_0000,
            ;
        }
        return if negative {
            i64::MIN
        } else {
            i64::MAX
        };
    }
    let whole: u64 = if exp >= 150 {
        scaled_up(sig, exp - 150)
    } else if exp == 0 {
        scaled_down(sig, 149)
    } else {
        scaled_down(sig, 150 - exp)
    };
    if negative {
        -(whole as i64)
    } else {
        whole as i64
    }
}

proof fn lemma_top_bit(m: nat, k: nat)
    requires
        pow2(k) <= m < pow2(k + 1),
    ensures
        top_bit(m) == k,
    decreases k,
{
    lemma2_to64();
    lemma2_to64_rest();
    lemma_pow2_unfold(k + 1);
    if k > 0 {
        lemma_pow2_unfold(k);
        lemma_pow2_pos((k - 1) as nat);
        lemma_top_bit(m / 2, (k - 1) as nat);
    }
}

/// The single nearest to a positive number, by its bits.
fn magnitude(m: u64) -> (r: u32)
    requires
        0 < m <= 0x8000_0000_0000_0000,
    ensures
        r == magnitude_bits(m as nat),
        r < 0x8000_0000,
{
    let mut k: u32 = 0;
    let mut p: u64 = 1;
    proof {
        lemma2_to64();
        lemma2_to64_rest();
    }
    while k < 63 && m / 2 >= p
        invariant
            k <= 63,
            p == pow2(k as nat),
            1 <= p <= m,
            m <= 0x8000_0000_0000_0000,
            pow2(63) == 0x8000_0000_0000_0000,
        decreases 63 - k,
    {
        proof {
            lemma_pow2_unfold((k + 1) as nat);
            if k + 1 < 63 {
                lemma_pow2_strictly_increases((k + 1) as nat, 63);
            }
        }
        p = 2 * p;
        k += 1;
    }
    proof {
        lemma_pow2_unfold((k + 1) as nat);
        lemma_top_bit(m as nat, k as nat);
    }
    let sig: u64 = if k <= 23 {
        proof {
            lemma_pow2_adds(k as nat, (23 - k) as nat);
            lemma_pow2_pos((23 - k) as nat);
            let a = pow2(k as nat) as int;
            let b = pow2((23 - k) as nat) as int;
            assert(m * b < 2 * (a * b) && m * b >= a * b) by (nonlinear_arith)
                requires
                    a <= m < 2 * a,
                    b > 0,
            ;
            assert(m < 0x100_0000) by {
                if k < 23 {
                    lemma_pow2_strictly_increases(k as nat, 23);
                }
            }
        }
        scaled_up(m, 23 - k)
    } else {
        let s = k - 23;
        proof {
            lemma_pow2_adds(23, s as nat);
            lemma_pow2_pos(s as nat);
            lemma_pow2_unfold(s as nat);
            lemma_pow2_pos((s - 1) as nat);
        }
        let d = scaled_up(1, if s <= 39 { s } else { 39 });
        let d: u64 = if s <= 39 {
            d
        } else {
            proof {
                assert(s == 40);
            }
            0x100_0000_0000
        };
        assert(d == pow2(s as nat));
        let q = m / d;
        let r = m % d;
        proof {
            vstd::arithmetic::div_mod::lemma_fundamental_div_mod(m as int, d as int);
            assert(0x80_0000 <= q < 0x100_0000) by (nonlinear_arith)
                requires
                    m == d * q + r,
                    0 <= r < d,
                    0x80_0000 * d <= m < 2 * (0x80_0000 * d),
                    d > 0,
            ;
        }
        if r > d / 2 || (r == d / 2 && q % 2 == 1) {
            q + 1
        } else {
            q
        }
    };
    ((k as u64 + 127) * 0x80_0000 + (sig - 0x80_0000)) as u32
}

/// The bits of the single nearest to an integer.
pub fn i64_to_single(v: i64) -> (r: u32)
    ensures
        r == from_integer(v as int),
{
    if v == 0 {
        0
    } else if v < 0 {
        let m: u64 = if v == i64::MIN {
            0x8000_0000_0000_0000
        } else {
            (-v) as u64
        };
        0x8000_0000 + magnitude(m)
    } else {
        magnitude(v as u64)
    }
}

/// Where a single stands among all others, both zeros at one place.
pub open spec fn rank(bits: u32) -> int {
    if bits < 0x8000_0000 {
        bits as int
    } else {
        0x8000_0000 - bits
    }
}

/// Whether a single is a number.
pub open spec fn is_number(bits: u32) -> bool {
    bits % 0x8000_0000 <= 0x7F80_0000
}

/// Whether two singles are written alike: the same bits, or both no number.
pub open spec fn alike_singles(a: u32, b: u32) -> bool {
    a == b || !is_number(a) && !is_number(b)
}

/// Whether two singles are written alike.
pub fn singles_alike(a: u32, b: u32) -> (r: bool)
    ensures
        r == alike_singles(a, b),
{
    a == b || (a % 0x8000_0000 > 0x7F80_0000 && b % 0x8000_0000 > 0x7F80_0000)
}

/// Whether one single is at least as large as another. What is no number is
/// neither larger nor smaller than anything.
pub open spec fn at_least(a: u32, b: u32) -> bool {
    is_number(a) && is_number(b) && rank(a) >= rank(b)
}

/// Whether one single is at least as large as another.
pub fn single_at_least(a: u32, b: u32) -> (r: bool)
    ensures
        r == at_least(a, b),
{
    if a % 0x8000_0000 > 0x7F80_0000 || b % 0x8000_0000 > 0x7F80_0000 {
        return false;
    }
    let x: i64 = if a < 0x8000_0000 {
        a as i64
    } else {
        0x8000_0000 - a as i64
    };
    let y: i64 = if b < 0x8000_0000 {
        b as i64
    } else {
        0x8000_0000 - b as i64
    };
    x >= y
}

// ─── laws ────────────────────────────────────────────────────────────────────

/// Rounding moves a quotient by half a unit at most, and by just half only to
/// an even one.
pub proof fn law_rounding_is_to_the_nearest(m: int, s: nat)
    requires
        m >= 0,
    ensures
        ({
            let d = pow2(s) as int;
            let q = rounded(m, s);
            &&& -d <= 2 * (m - q * d) <= d
            &&& 2 * (m - q * d) == d || 2 * (m - q * d) == -d ==> q % 2 == 0
        }),
{
    let d = pow2(s) as int;
    lemma_pow2_pos(s);
    let q = m / d;
    let r = m % d;
    vstd::arithmetic::div_mod::lemma_fundamental_div_mod(m, d);
    assert(0 <= r < d);
    assert(d * q == q * d) by (nonlinear_arith);
    assert((q + 1) * d == q * d + d) by (nonlinear_arith);
}

proof fn lemma_top_bit_holds(m: nat)
    requires
        m > 0,
    ensures
        pow2(top_bit(m)) <= m < pow2(top_bit(m) + 1),
    decreases m,
{
    lemma2_to64();
    if m > 1 {
        lemma_top_bit_holds(m / 2);
        lemma_pow2_unfold(top_bit(m));
        lemma_pow2_unfold(top_bit(m) + 1);
    } else {
        lemma_pow2_unfold(1);
    }
}

proof fn lemma_small_magnitude(m: nat)
    requires
        0 < m < 0x100_0000,
    ensures
        0x80_0000 * 127 <= magnitude_bits(m) < 0x80_0000 * 151,
        ({
            let b = magnitude_bits(m) as u32;
            whole_part(b) == m && b / 0x80_0000 % 0x100 != 0xFF
        }),
{
    let k = top_bit(m);
    lemma2_to64();
    lemma_top_bit_holds(m);
    assert(k <= 23) by {
        if k > 23 {
            if k > 24 {
                lemma_pow2_strictly_increases(24, k);
            }
        }
    }
    let e = (23 - k) as nat;
    let p = pow2(e) as int;
    lemma_pow2_pos(e);
    lemma_pow2_adds(k, e);
    lemma_pow2_adds(k + 1, e);
    let sig = m * p;
    assert(pow2(k) * p <= m * p < pow2(k + 1) * p) by (nonlinear_arith)
        requires
            pow2(k) <= m < pow2(k + 1),
            p > 0,
    ;
    assert(0x80_0000 <= sig < 0x100_0000);
    let b = magnitude_bits(m) as u32;
    assert(magnitude_bits(m) == (k + 127) * 0x80_0000 + (sig - 0x80_0000));
    assert(b / 0x80_0000 == k + 127);
    assert(b % 0x80_0000 == sig - 0x80_0000);
    assert(significand(b) == sig);
    assert(scale(b) == k - 23);
    if k == 23 {
        assert(p == 1);
        assert(pow2(0) == 1);
        assert(sig == m) by (nonlinear_arith)
            requires
                sig == m * p,
                p == 1,
        ;
    } else {
        assert(sig / p == m) by (nonlinear_arith)
            requires
                sig == m * p,
                p > 0,
        ;
    }
}

/// A whole number below two to the twenty-fourth in magnitude is a single, and
/// converts back to itself.
pub proof fn law_small_numbers_survive(n: int)
    requires
        -0x100_0000 < n < 0x100_0000,
    ensures
        to_integer(from_integer(n)) == n,
        n < 0 <==> from_integer(n) >= 0x8000_0000,
        from_integer(n) % 0x8000_0000 < 0x4B80_0000,
        n != 0 ==> from_integer(-n) == (if n > 0 {
            from_integer(n) + 0x8000_0000
        } else {
            from_integer(n) - 0x8000_0000
        }),
{
    lemma2_to64();
    let m = if n < 0 {
        (-n) as nat
    } else {
        n as nat
    };
    if n != 0 {
        lemma_small_magnitude(m);
        let b = magnitude_bits(m) as u32;
        if n < 0 {
            let c = (0x8000_0000 + magnitude_bits(m)) as u32;
            assert(from_integer(n) == c);
            assert(c == b + 0x8000_0000);
            assert(c / 0x80_0000 % 0x100 == b / 0x80_0000 % 0x100);
            assert(c % 0x80_0000 == b % 0x80_0000);
            assert(whole_part(c) == m);
        }
    } else {
        assert(significand(0) == 0);
        assert(scale(0) == -149);
        lemma_pow2_pos(149);
        assert(0int / (pow2(149) as int) == 0) by (nonlinear_arith)
            requires
                pow2(149) > 0,
        ;
    }
}

/// A larger number becomes a single within half of the distance that singles
/// of its size lie apart: one part in two to the twenty-fourth.
pub proof fn law_large_numbers_are_rounded(n: int)
    requires
        0x100_0000 <= n < 0x4000_0000_0000_0000,
    ensures
        ({
            let back = to_integer(from_integer(n)) as int;
            &&& -n <= 0x100_0000 * (back - n) <= n
        }),
        from_integer(-n) == from_integer(n) + 0x8000_0000,
{
    let m = n as nat;
    let k = top_bit(m);
    lemma2_to64();
    lemma2_to64_rest();
    lemma_top_bit_holds(m);
    assert(24 <= k < 62) by {
        if k < 24 {
            if k + 1 < 24 {
                lemma_pow2_strictly_increases((k + 1) as nat, 24);
            }
        }
        if k >= 62 {
            if k > 62 {
                lemma_pow2_strictly_increases(62, k);
            }
        }
    }
    let s = (k - 23) as nat;
    let d = pow2(s) as int;
    let q = rounded(n, s);
    lemma_pow2_pos(s);
    lemma_pow2_adds(23, s);
    lemma_pow2_adds(24, s);
    law_rounding_is_to_the_nearest(n, s);
    assert(0x80_0000 * d <= n < 0x100_0000 * d);
    assert(0x80_0000 <= q <= 0x100_0000) by (nonlinear_arith)
        requires
            0x80_0000 * d <= n < 0x100_0000 * d,
            -d <= 2 * (n - q * d) <= d,
            d > 0,
    ;
    let bits = magnitude_bits(m);
    assert(bits == (k + 127) * 0x80_0000 + (q - 0x80_0000));
    let b = bits as u32;
    assert(from_integer(n) == b);
    assert(whole_part(b) == q * d) by {
        if q < 0x100_0000 {
            assert(b / 0x80_0000 == k + 127);
            assert(b % 0x80_0000 == q - 0x80_0000);
            assert(significand(b) == q);
            assert(scale(b) == k - 23);
        } else {
            assert(b / 0x80_0000 == k + 128);
            assert(b % 0x80_0000 == 0);
            assert(significand(b) == 0x80_0000);
            assert(scale(b) == k - 22);
            lemma_pow2_unfold(s + 1);
            assert(0x80_0000 * (2 * d) == q * d) by (nonlinear_arith)
                requires
                    q == 0x100_0000,
            ;
        }
    }
    assert(q * d <= 0x100_0000 * d) by (nonlinear_arith)
        requires
            q <= 0x100_0000,
            d > 0,
    ;
    assert(0 <= q * d) by (nonlinear_arith)
        requires
            q >= 0,
            d > 0,
    ;
    assert(0x100_0000 * d <= 2 * n);
}

/// Of two numbers one is at least as large as the other, both only where they
/// are the same number; the two zeros are. What is no number compares with
/// nothing.
pub proof fn law_singles_are_ordered(a: u32, b: u32, c: u32)
    ensures
        is_number(a) && is_number(b) ==> at_least(a, b) || at_least(b, a),
        at_least(a, b) && at_least(b, c) ==> at_least(a, c),
        at_least(a, b) && at_least(b, a) ==> a == b || a % 0x8000_0000 == 0 && b % 0x8000_0000
            == 0,
        !is_number(a) ==> !at_least(a, b) && !at_least(b, a),
        at_least(0, 0x8000_0000) && at_least(0x8000_0000, 0),
        a < 0x8000_0000 && b < 0x8000_0000 && is_number(a) && is_number(b) ==> (at_least(a, b)
            <==> a >= b),
        a < 0x8000_0000 && b >= 0x8000_0000 && is_number(a) && is_number(b) ==> at_least(a, b),
        is_number(0x7F80_0000) && !is_number(0x7F80_0001) && !is_number(0xFFFF_FFFF),
{
}

} // verus!
