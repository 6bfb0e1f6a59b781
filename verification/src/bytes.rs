//! Fixed-width integers in byte sequences, little and big endian.

use vstd::prelude::*;

verus! {

/// The little-endian `u16` at `i`.
pub open spec fn le16(s: Seq<u8>, i: int) -> u16 {
    (s[i] + 0x100 * s[i + 1]) as u16
}

/// The little-endian `u32` at `i`.
pub open spec fn le32(s: Seq<u8>, i: int) -> u32 {
    (s[i] + 0x100 * s[i + 1] + 0x1_0000 * s[i + 2] + 0x100_0000 * s[i + 3]) as u32
}

/// The little-endian `u64` at `i`.
pub open spec fn le64(s: Seq<u8>, i: int) -> u64 {
    (le32(s, i) + 0x1_0000_0000 * le32(s, i + 4)) as u64
}

/// The big-endian `u16` at `i`.
pub open spec fn be16(s: Seq<u8>, i: int) -> u16 {
    (0x100 * s[i] + s[i + 1]) as u16
}

/// The big-endian `u32` at `i`.
pub open spec fn be32(s: Seq<u8>, i: int) -> u32 {
    (0x100_0000 * s[i] + 0x1_0000 * s[i + 1] + 0x100 * s[i + 2] + s[i + 3]) as u32
}

/// The big-endian `u64` at `i`.
pub open spec fn be64(s: Seq<u8>, i: int) -> u64 {
    (0x1_0000_0000 * be32(s, i) + be32(s, i + 4)) as u64
}

/// The two bytes of `v`, low byte first.
pub open spec fn le16_bytes(v: u16) -> Seq<u8> {
    seq![(v % 0x100) as u8, (v / 0x100) as u8]
}

/// The four bytes of `v`, low byte first.
pub open spec fn le32_bytes(v: u32) -> Seq<u8> {
    seq![
        (v % 0x100) as u8,
        (v / 0x100 % 0x100) as u8,
        (v / 0x1_0000 % 0x100) as u8,
        (v / 0x100_0000) as u8,
    ]
}

/// The eight bytes of `v`, low byte first.
pub open spec fn le64_bytes(v: u64) -> Seq<u8> {
    le32_bytes((v % 0x1_0000_0000) as u32) + le32_bytes((v / 0x1_0000_0000) as u32)
}

/// The two bytes of `v`, high byte first.
pub open spec fn be16_bytes(v: u16) -> Seq<u8> {
    seq![(v / 0x100) as u8, (v % 0x100) as u8]
}

/// The four bytes of `v`, high byte first.
pub open spec fn be32_bytes(v: u32) -> Seq<u8> {
    seq![
        (v / 0x100_0000) as u8,
        (v / 0x1_0000 % 0x100) as u8,
        (v / 0x100 % 0x100) as u8,
        (v % 0x100) as u8,
    ]
}

/// The eight bytes of `v`, high byte first.
pub open spec fn be64_bytes(v: u64) -> Seq<u8> {
    be32_bytes((v / 0x1_0000_0000) as u32) + be32_bytes((v % 0x1_0000_0000) as u32)
}

/// `n` zero bytes.
pub open spec fn zeros(n: int) -> Seq<u8> {
    Seq::new(if n < 0 { 0 } else { n as nat }, |i: int| 0u8)
}

/// `s` with the bytes from `at` on replaced by those of `v`.
pub open spec fn splice(s: Seq<u8>, at: int, v: Seq<u8>) -> Seq<u8> {
    Seq::new(
        s.len(),
        |i: int|
            if at <= i < at + v.len() {
                v[i - at]
            } else {
                s[i]
            },
    )
}

/// Reading a written `u16` gives it back, in either byte order.
pub proof fn law_u16_round_trip(v: u16)
    ensures
        le16(le16_bytes(v), 0) == v,
        be16(be16_bytes(v), 0) == v,
{
}

/// Reading a written `u32` gives it back, in either byte order.
pub proof fn law_u32_round_trip(v: u32)
    ensures
        le32(le32_bytes(v), 0) == v,
        be32(be32_bytes(v), 0) == v,
{
}

/// Reading a written `u64` gives it back, in either byte order.
pub proof fn law_u64_round_trip(v: u64)
    ensures
        le64(le64_bytes(v), 0) == v,
        be64(be64_bytes(v), 0) == v,
{
    let lo = (v % 0x1_0000_0000) as u32;
    let hi = (v / 0x1_0000_0000) as u32;
    law_u32_round_trip(lo);
    law_u32_round_trip(hi);
    let l = le64_bytes(v);
    assert(le32(l, 0) == le32(le32_bytes(lo), 0));
    assert(le32(l, 4) == le32(le32_bytes(hi), 0));
    let b = be64_bytes(v);
    assert(be32(b, 0) == be32(be32_bytes(hi), 0));
    assert(be32(b, 4) == be32(be32_bytes(lo), 0));
}

/// A `u16` read inside a subrange is the one read at the shifted place.
pub broadcast proof fn lemma_le16_subrange(s: Seq<u8>, a: int, b: int, i: int)
    requires
        0 <= a <= b <= s.len(),
        0 <= i,
        i + 2 <= b - a,
    ensures
        #[trigger] le16(s.subrange(a, b), i) == le16(s, a + i),
{
}

/// A `u32` read inside a subrange is the one read at the shifted place.
pub broadcast proof fn lemma_le32_subrange(s: Seq<u8>, a: int, b: int, i: int)
    requires
        0 <= a <= b <= s.len(),
        0 <= i,
        i + 4 <= b - a,
    ensures
        #[trigger] le32(s.subrange(a, b), i) == le32(s, a + i),
{
}

/// A `u64` read inside a subrange is the one read at the shifted place.
pub broadcast proof fn lemma_le64_subrange(s: Seq<u8>, a: int, b: int, i: int)
    requires
        0 <= a <= b <= s.len(),
        0 <= i,
        i + 8 <= b - a,
    ensures
        #[trigger] le64(s.subrange(a, b), i) == le64(s, a + i),
{
}

/// Reads inside a subrange are reads of the whole at the shifted place.
pub broadcast group group_subrange_reads {
    lemma_le16_subrange,
    lemma_le32_subrange,
    lemma_le64_subrange,
}

/// A big-endian `u16` read inside a subrange is the one read at the shifted
/// place.
pub broadcast proof fn lemma_be16_subrange(s: Seq<u8>, a: int, b: int, i: int)
    requires
        0 <= a <= b <= s.len(),
        0 <= i,
        i + 2 <= b - a,
    ensures
        #[trigger] be16(s.subrange(a, b), i) == be16(s, a + i),
{
}

/// A big-endian `u32` read inside a subrange is the one read at the shifted
/// place.
pub broadcast proof fn lemma_be32_subrange(s: Seq<u8>, a: int, b: int, i: int)
    requires
        0 <= a <= b <= s.len(),
        0 <= i,
        i + 4 <= b - a,
    ensures
        #[trigger] be32(s.subrange(a, b), i) == be32(s, a + i),
{
}

/// Big-endian reads inside a subrange are reads of the whole at the shifted
/// place.
pub broadcast group group_big_endian_reads {
    lemma_be16_subrange,
    lemma_be32_subrange,
}

/// Appends the two bytes of `v`, low byte first.
pub fn push_u16_le(out: &mut Vec<u8>, v: u16)
    ensures
        final(out)@ == old(out)@ + le16_bytes(v),
{
    out.push((v % 0x100) as u8);
    out.push((v / 0x100) as u8);
    assert(out@ =~= old(out)@ + le16_bytes(v));
}

/// Appends the four bytes of `v`, low byte first.
pub fn push_u32_le(out: &mut Vec<u8>, v: u32)
    ensures
        final(out)@ == old(out)@ + le32_bytes(v),
{
    out.push((v % 0x100) as u8);
    out.push((v / 0x100 % 0x100) as u8);
    out.push((v / 0x1_0000 % 0x100) as u8);
    out.push((v / 0x100_0000) as u8);
    assert(out@ =~= old(out)@ + le32_bytes(v));
}

/// Appends the eight bytes of `v`, low byte first.
pub fn push_u64_le(out: &mut Vec<u8>, v: u64)
    ensures
        final(out)@ == old(out)@ + le64_bytes(v),
{
    push_u32_le(out, (v % 0x1_0000_0000) as u32);
    push_u32_le(out, (v / 0x1_0000_0000) as u32);
    assert(out@ =~= old(out)@ + le64_bytes(v));
}

/// Appends the two bytes of `v`, high byte first.
pub fn push_u16_be(out: &mut Vec<u8>, v: u16)
    ensures
        final(out)@ == old(out)@ + be16_bytes(v),
{
    out.push((v / 0x100) as u8);
    out.push((v % 0x100) as u8);
    assert(out@ =~= old(out)@ + be16_bytes(v));
}

/// Appends the four bytes of `v`, high byte first.
pub fn push_u32_be(out: &mut Vec<u8>, v: u32)
    ensures
        final(out)@ == old(out)@ + be32_bytes(v),
{
    out.push((v / 0x100_0000) as u8);
    out.push((v / 0x1_0000 % 0x100) as u8);
    out.push((v / 0x100 % 0x100) as u8);
    out.push((v % 0x100) as u8);
    assert(out@ =~= old(out)@ + be32_bytes(v));
}

/// Appends every byte of `v`.
pub fn push_bytes(out: &mut Vec<u8>, v: &[u8])
    ensures
        final(out)@ == old(out)@ + v@,
{
    let mut i: usize = 0;
    while i < v.len()
        invariant
            i <= v@.len(),
            out@ == old(out)@ + v@.take(i as int),
        decreases v@.len() - i,
    {
        out.push(v[i]);
        i += 1;
        assert(out@ =~= old(out)@ + v@.take(i as int));
    }
    assert(v@.take(i as int) =~= v@);
}

/// Appends zero bytes until `out` holds `len` bytes, where it holds fewer.
pub fn pad_to(out: &mut Vec<u8>, len: usize)
    ensures
        final(out)@ == old(out)@ + zeros(len - old(out)@.len()),
{
    let ghost start = out@;
    while out.len() < len
        invariant
            start.len() <= out@.len(),
            out@.len() <= len || out@ == start,
            out@ == start + zeros(out@.len() - start.len()),
        decreases len - out@.len(),
    {
        out.push(0u8);
        assert(out@ =~= start + zeros(out@.len() - start.len()));
    }
}

/// Copies `v` over the bytes of `buf` from `at` on.
pub fn put_bytes(buf: &mut Vec<u8>, at: usize, v: &[u8])
    requires
        at + v@.len() <= old(buf)@.len(),
    ensures
        final(buf)@ == splice(old(buf)@, at as int, v@),
{
    let ghost start = buf@;
    let mut i: usize = 0;
    while i < v.len()
        invariant
            i <= v@.len(),
            buf@.len() == start.len(),
            at + v@.len() <= buf@.len(),
            buf@ == splice(start, at as int, v@.take(i as int)),
        decreases v@.len() - i,
    {
        assert(at + v@.len() <= buf.len());
        buf.set(at + i, v[i]);
        i += 1;
        assert(buf@ =~= splice(start, at as int, v@.take(i as int)));
    }
    assert(v@.take(i as int) =~= v@);
}

/// Writes `v` at `at`, low byte first.
pub fn put_u16_le(buf: &mut Vec<u8>, at: usize, v: u16)
    requires
        at + 2 <= old(buf)@.len(),
    ensures
        final(buf)@ == splice(old(buf)@, at as int, le16_bytes(v)),
{
    let ghost start = buf@;
    assert(at + 2 <= buf.len());
    buf.set(at, (v % 0x100) as u8);
    buf.set(at + 1, (v / 0x100) as u8);
    assert(buf@ =~= splice(start, at as int, le16_bytes(v)));
}

/// Writes `v` at `at`, low byte first.
pub fn put_u32_le(buf: &mut Vec<u8>, at: usize, v: u32)
    requires
        at + 4 <= old(buf)@.len(),
    ensures
        final(buf)@ == splice(old(buf)@, at as int, le32_bytes(v)),
{
    let ghost start = buf@;
    assert(at + 4 <= buf.len());
    buf.set(at, (v % 0x100) as u8);
    buf.set(at + 1, (v / 0x100 % 0x100) as u8);
    buf.set(at + 2, (v / 0x1_0000 % 0x100) as u8);
    buf.set(at + 3, (v / 0x100_0000) as u8);
    assert(buf@ =~= splice(start, at as int, le32_bytes(v)));
}

/// Writes `v` at `at`, low byte first.
pub fn put_u64_le(buf: &mut Vec<u8>, at: usize, v: u64)
    requires
        at + 8 <= old(buf)@.len(),
    ensures
        final(buf)@ == splice(old(buf)@, at as int, le64_bytes(v)),
{
    let ghost start = buf@;
    assert(at + 8 <= buf.len());
    put_u32_le(buf, at, (v % 0x1_0000_0000) as u32);
    put_u32_le(buf, at + 4, (v / 0x1_0000_0000) as u32);
    assert(buf@ =~= splice(start, at as int, le64_bytes(v)));
}

/// A copy of the bytes of `v`.
pub fn to_vec(v: &[u8]) -> (r: Vec<u8>)
    ensures
        r@ == v@,
{
    let mut out: Vec<u8> = Vec::new();
    push_bytes(&mut out, v);
    assert(out@ =~= v@);
    out
}

} // verus!
