//! Blocks of a section that is being written, and reading them again.

use vstd::prelude::*;

verus! {

broadcast use crate::bytes::group_subrange_reads;

/// Whether a section agrees with what was written of it so far, from some
/// place on.
pub open spec fn carries(s: Seq<u8>, buf: Seq<u8>, from: int) -> bool {
    buf.len() <= s.len() && forall|i: int| from <= i < buf.len() ==> #[trigger] s[i] == buf[i]
}

pub proof fn lemma_put(buf: Seq<u8>, bytes: Seq<u8>)
    ensures
        ({
            let at = crate::ynv_write::start_for(buf.len() as int, bytes.len() as int);
            let out = crate::ynv_write::put(buf, bytes);
            &&& buf.len() <= at
            &&& out.len() == at + bytes.len()
            &&& carries(out, buf, 0)
            &&& out.subrange(at, at + bytes.len()) == bytes
        }),
{
    reveal(crate::ynv_write::start_for);
    let at = crate::ynv_write::start_for(buf.len() as int, bytes.len() as int);
    let out = crate::ynv_write::put(buf, bytes);
    assert(out.subrange(at, at + bytes.len()) =~= bytes);
}

pub proof fn lemma_grown(buf: Seq<u8>, size: int)
    requires
        size >= 0,
    ensures
        ({
            let at = crate::ynv_write::start_for(buf.len() as int, size);
            let out = crate::ynv_write::grown(buf, size);
            &&& buf.len() <= at
            &&& out.len() == at + size
            &&& carries(out, buf, 0)
        }),
{
    reveal(crate::ynv_write::start_for);
}

/// What a section holds at a place can be found by the address of the place.
pub proof fn lemma_resolves(s: Seq<u8>, graphics: Seq<u8>, at: int, bytes: Seq<u8>)
    requires
        0 <= at < 0x1000_0000,
        at + bytes.len() <= s.len(),
        s.subrange(at, at + bytes.len()) == bytes,
    ensures
        crate::ynv_write::address(at) != 0,
        crate::resource::resolved(
            s,
            graphics,
            crate::ynv_write::address(at),
            bytes.len() as int,
        ) == Some(bytes),
{
    let va = (0x5000_0000 + at) as u64;
    assert(va & 0x6000_0000 != 0x6000_0000 && va & 0x5000_0000 == 0x5000_0000) by (bit_vector)
        requires
            0x5000_0000 <= va < 0x6000_0000,
    ;
}

pub proof fn lemma_carried(s: Seq<u8>, buf: Seq<u8>, from: int, at: int, bytes: Seq<u8>)
    requires
        carries(s, buf, from),
        0 <= from <= at,
        at + bytes.len() <= buf.len(),
        buf.subrange(at, at + bytes.len()) == bytes,
    ensures
        s.subrange(at, at + bytes.len()) == bytes,
{
    assert(s.subrange(at, at + bytes.len()) =~= buf.subrange(at, at + bytes.len()));
}

pub proof fn lemma_carries_on(s: Seq<u8>, end: Seq<u8>, before: Seq<u8>, from: int)
    requires
        carries(s, end, from),
        carries(end, before, 0),
        0 <= from,
    ensures
        carries(s, before, from),
{
    assert forall|j: int| from <= j < before.len() implies #[trigger] s[j] == before[j] by {
        assert(s[j] == end[j]);
        assert(end[j] == before[j]);
    }
}

} // verus!
