//! What the flag words of a polygon say.

use vstd::prelude::*;

use crate::value_laws::bit_set;
use crate::ynv::{with_bit, PolyView};

verus! {

/// Each kind of polygon has a bit of its own: footpaths, steep ground and water
/// the third, seventh and eighth of the first word; interiors, level ground,
/// roads and cell edges the seventh and the tenth to twelfth of the second.
pub proof fn law_kinds_have_their_bits(p: PolyView)
    ensures
        p.footpath() <==> p.flags0 & 0x04 != 0,
        p.steep() <==> p.flags0 & 0x40 != 0,
        p.water() <==> p.flags0 & 0x80 != 0,
        p.interior() <==> p.flags1 & 0x40 != 0,
        p.flat_ground() <==> p.flags1 & 0x200 != 0,
        p.road() <==> p.flags1 & 0x400 != 0,
        p.cell_edge() <==> p.flags1 & 0x800 != 0,
{
    let a = p.flags0;
    let b = p.flags1;
    assert((a / 4 % 2 == 1) == (a & 0x04 != 0) && (a / 64 % 2 == 1) == (a & 0x40 != 0) && (a / 128
        % 2 == 1) == (a & 0x80 != 0)) by (bit_vector);
    assert((b / 64 % 2 == 1) == (b & 0x40 != 0) && (b / 512 % 2 == 1) == (b & 0x200 != 0) && (b
        / 1024 % 2 == 1) == (b & 0x400 != 0) && (b / 2048 % 2 == 1) == (b & 0x800 != 0))
        by (bit_vector);
}

/// Setting or clearing a bit does that to the one bit and to no other.
pub proof fn law_bits_change_alone(word: u32, on: bool, i: u32)
    requires
        i < 32,
    ensures
        bit_set(with_bit(word, 64, on), i) == (if i == 6 {
            on
        } else {
            bit_set(word, i)
        }),
        bit_set(with_bit(word, 512, on), i) == (if i == 9 {
            on
        } else {
            bit_set(word, i)
        }),
{
    let a = with_bit(word, 64, on);
    let b = with_bit(word, 512, on);
    assert((a == if (word / 64 % 2 == 1) == on {
        word
    } else if on {
        (word + 64) as u32
    } else {
        (word - 64) as u32
    }) ==> bit_set(a, i) == (if i == 6 {
        on
    } else {
        bit_set(word, i)
    })) by (bit_vector)
        requires
            i < 32,
    ;
    assert((b == if (word / 512 % 2 == 1) == on {
        word
    } else if on {
        (word + 512) as u32
    } else {
        (word - 512) as u32
    }) ==> bit_set(b, i) == (if i == 9 {
        on
    } else {
        bit_set(word, i)
    })) by (bit_vector)
        requires
            i < 32,
    ;
}

} // verus!
