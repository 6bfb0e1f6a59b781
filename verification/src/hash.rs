//! The hash by which the engine names things.

use vstd::prelude::*;
use vstd::string::*;

verus! {

/// One byte of the Jenkins one-at-a-time hash.
pub open spec fn joaat_step(hash: u32, b: u8) -> u32 {
    let h = hash.wrapping_add(b as u32);
    let h = h.wrapping_add(h << 10);
    h ^ (h >> 6)
}

/// The hash of `s` before its closing avalanche.
pub open spec fn joaat_rounds(s: Seq<u8>) -> u32
    decreases s.len(),
{
    if s.len() == 0 {
        0
    } else {
        joaat_step(joaat_rounds(s.drop_last()), s.last())
    }
}

/// The Jenkins one-at-a-time hash of the bytes of `s`.
pub open spec fn joaat(s: Seq<u8>) -> u32 {
    let h = joaat_rounds(s);
    let h = h.wrapping_add(h << 3);
    let h = h ^ (h >> 11);
    h.wrapping_add(h << 15)
}

/// The hash of a name, over its UTF-8 bytes.
pub open spec fn name_hash(name: Seq<char>) -> u32 {
    joaat(vstd::utf8::encode_utf8(name))
}

/// The empty name hashes to zero.
pub proof fn law_empty_name_is_zero()
    ensures
        name_hash(Seq::empty()) == 0,
{
    assert(vstd::utf8::encode_utf8(Seq::<char>::empty()) =~= Seq::<u8>::empty()) by {
        reveal_with_fuel(vstd::utf8::encode_utf8, 1);
    }
    assert(0u32 << 3 == 0 && 0u32 >> 11 == 0 && 0u32 << 15 == 0 && 0u32 ^ 0u32 == 0) by (bit_vector);
}

/// Jenkins one-at-a-time over the bytes of `s`, exactly as RAGE computes it.
pub fn rage_joaat(s: &str) -> (hash: u32)
    ensures
        hash == name_hash(s@),
{
    let bytes = s.as_bytes();
    joaat_bytes(bytes)
}

/// [`rage_joaat`] over bytes that need not be text.
pub fn joaat_bytes(bytes: &[u8]) -> (r: u32)
    ensures
        r == joaat(bytes@),
{
    let mut hash: u32 = 0;
    let mut i: usize = 0;
    while i < bytes.len()
        invariant
            i <= bytes@.len(),
            hash == joaat_rounds(bytes@.take(i as int)),
        decreases bytes@.len() - i,
    {
        hash = hash.wrapping_add(bytes[i] as u32);
        hash = hash.wrapping_add(hash << 10);
        hash = hash ^ (hash >> 6);
        i += 1;
        assert(bytes@.take(i as int).drop_last() =~= bytes@.take(i - 1));
    }
    assert(bytes@.take(i as int) =~= bytes@);
    hash = hash.wrapping_add(hash << 3);
    hash = hash ^ (hash >> 11);
    hash.wrapping_add(hash << 15)
}

} // verus!
