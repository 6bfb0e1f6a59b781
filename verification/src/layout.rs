//! Where fields stand in a record, byte by byte.

use vstd::prelude::*;

use crate::math::{Vec3, Vec4};

verus! {

/// Whether `bytes` stand in `b` from `off` on.
pub open spec fn stands(b: Seq<u8>, off: int, bytes: Seq<u8>) -> bool {
    0 <= off && off + bytes.len() <= b.len() && b.subrange(off, off + bytes.len()) == bytes
}

/// The bytes of two words after one another.
pub open spec fn pair_bytes(a: u32, b: u32) -> Seq<u8> {
    crate::bytes::le32_bytes(a) + crate::bytes::le32_bytes(b)
}

/// The twelve bytes of three singles.
pub open spec fn triple_bytes(v: Vec3) -> Seq<u8> {
    pair_bytes(v.x, v.y) + crate::bytes::le32_bytes(v.z)
}

/// The sixteen bytes of four singles.
pub open spec fn quad_bytes(v: Vec4) -> Seq<u8> {
    pair_bytes(v.x, v.y) + pair_bytes(v.z, v.w)
}

/// A half word is read where it stands.
pub broadcast proof fn lemma_half_stands(b: Seq<u8>, off: int, v: u16)
    requires
        #[trigger] stands(b, off, crate::bytes::le16_bytes(v)),
    ensures
        crate::bytes::le16(b, off) == v,
{
    let s = b.subrange(off, off + 2);
    assert(s[0] == b[off] && s[1] == b[off + 1]);
}

/// A word is read where it stands.
pub broadcast proof fn lemma_word_stands(b: Seq<u8>, off: int, v: u32)
    requires
        #[trigger] stands(b, off, crate::bytes::le32_bytes(v)),
    ensures
        crate::bytes::le32(b, off) == v,
{
    let s = b.subrange(off, off + 4);
    assert(s[0] == b[off] && s[1] == b[off + 1] && s[2] == b[off + 2] && s[3] == b[off + 3]);
}

/// What stands as one run stands as two, one after the other.
pub proof fn lemma_stands_apart(b: Seq<u8>, off: int, x: Seq<u8>, y: Seq<u8>)
    requires
        stands(b, off, x + y),
    ensures
        stands(b, off, x),
        stands(b, off + x.len(), y),
{
    let s = b.subrange(off, off + x.len() + y.len());
    assert(s == x + y);
    assert(b.subrange(off, off + x.len()) =~= s.subrange(0, x.len() as int));
    assert(s.subrange(0, x.len() as int) =~= x);
    assert(b.subrange(off + x.len(), off + x.len() + y.len()) =~= s.subrange(
        x.len() as int,
        s.len() as int,
    ));
    assert(s.subrange(x.len() as int, s.len() as int) =~= y);
}

/// A long word is read where it stands.
pub broadcast proof fn lemma_long_stands(b: Seq<u8>, off: int, v: u64)
    requires
        #[trigger] stands(b, off, crate::bytes::le64_bytes(v)),
    ensures
        crate::bytes::le64(b, off) == v,
{
    let lo = (v % 0x1_0000_0000) as u32;
    let hi = (v / 0x1_0000_0000) as u32;
    lemma_stands_apart(b, off, crate::bytes::le32_bytes(lo), crate::bytes::le32_bytes(hi));
    lemma_word_stands(b, off, lo);
    lemma_word_stands(b, off + 4, hi);
}

/// Two words are read where they stand.
pub proof fn lemma_pair_stands(b: Seq<u8>, off: int, x: u32, y: u32)
    requires
        stands(b, off, pair_bytes(x, y)),
    ensures
        crate::bytes::le32(b, off) == x,
        crate::bytes::le32(b, off + 4) == y,
{
    lemma_stands_apart(b, off, crate::bytes::le32_bytes(x), crate::bytes::le32_bytes(y));
    lemma_word_stands(b, off, x);
    lemma_word_stands(b, off + 4, y);
}

/// Three singles are read where they stand.
pub broadcast proof fn lemma_triple_stands(b: Seq<u8>, off: int, v: Vec3)
    requires
        #[trigger] stands(b, off, triple_bytes(v)),
    ensures
        crate::resource::vec3_at(b, off) == v,
{
    lemma_stands_apart(b, off, pair_bytes(v.x, v.y), crate::bytes::le32_bytes(v.z));
    lemma_pair_stands(b, off, v.x, v.y);
    lemma_word_stands(b, off + 8, v.z);
}

/// Four singles are read where they stand.
pub broadcast proof fn lemma_quad_stands(b: Seq<u8>, off: int, v: Vec4)
    requires
        #[trigger] stands(b, off, quad_bytes(v)),
    ensures
        crate::resource::vec4_at(b, off) == v,
{
    lemma_stands_apart(b, off, pair_bytes(v.x, v.y), pair_bytes(v.z, v.w));
    lemma_pair_stands(b, off, v.x, v.y);
    lemma_pair_stands(b, off + 8, v.z, v.w);
}

/// Fields are read where they stand.
pub broadcast group group_fields_stand {
    lemma_half_stands,
    lemma_word_stands,
    lemma_long_stands,
    lemma_triple_stands,
    lemma_quad_stands,
}

/// A signed word is the one whose bits were stored.
pub proof fn lemma_signed_word(x: i32)
    ensures
        (x as u32) as i32 == x,
{
    assert((x as u32) as i32 == x) by (bit_vector);
}

} // verus!
