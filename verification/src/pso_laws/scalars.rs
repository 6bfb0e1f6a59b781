//! Plain values come back from the bytes they are stored as.

use vstd::prelude::*;

use crate::math::Vec4;
use crate::pso::{PsoType, PsoView};
use crate::pso_write::{Context, T_F32, T_VEC2, T_VEC3, T_VEC3A, T_VEC4, T_VEC4A};
use crate::schema::{PsoEntryDef, PsoStructDefView};
use crate::value::ValueView;

verus! {

broadcast use crate::bytes::group_big_endian_reads;

proof fn lemma_casts(a: i8, c: i16, e: i32, g: u64)
    ensures
        ((a as i64) as u8) as i8 == a,
        ((c as i64) as u16) as i16 == c,
        ((e as i64) as u32) as i32 == e,
        (e as u32) as i32 == e,
        (g as i64) as u64 == g,
{
    assert(((a as i64) as u8) as i8 == a) by (bit_vector);
    assert(((c as i64) as u16) as i16 == c) by (bit_vector);
    assert(((e as i64) as u32) as i32 == e && (e as u32) as i32 == e) by (bit_vector);
    assert((g as i64) as u64 == g) by (bit_vector);
}

proof fn lemma_small(e: i32)
    requires
        0 <= e <= 0xFF,
    ensures
        ((e as u32) as u8) as i32 == e,
{
}

proof fn lemma_narrow(b: u32)
    ensures
        b <= 0xFFFF ==> (b as u16) as u32 == b,
        b <= 0xFF ==> (b as u8) as u32 == b,
{
}

/// The integer that a value of an integer type is.
pub open spec fn number(v: ValueView) -> i64 {
    match v {
        ValueView::Bool(b) => if b {
            1
        } else {
            0
        },
        ValueView::I8(x) => x as i64,
        ValueView::U8(x) => x as i64,
        ValueView::I16(x) => x as i64,
        ValueView::U16(x) => x as i64,
        ValueView::I32(x) => x as i64,
        ValueView::U32(x) => x as i64,
        ValueView::U64(x) => x as i64,
        _ => 0,
    }
}

pub proof fn lemma_words(x: u16, y: u32, z: u64)
    ensures
        crate::bytes::be16(crate::bytes::be16_bytes(x), 0) == x,
        crate::bytes::be32(crate::bytes::be32_bytes(y), 0) == y,
        crate::bytes::be64(crate::bytes::be64_bytes(z), 0) == z,
{
    crate::bytes::law_u16_round_trip(x);
    crate::bytes::law_u32_round_trip(y);
    crate::bytes::law_u64_round_trip(z);
}

proof fn lemma_vector(a: Vec4, n: int, tail: Seq<u8>)
    requires
        2 <= n <= 4,
    ensures
        ({
            let b = crate::pso_write::vector_bytes(a, n);
            &&& b.len() == 4 * n
            &&& crate::bytes::be32(b + tail, 0) == a.x
            &&& crate::bytes::be32(b + tail, 4) == a.y
            &&& n >= 3 ==> crate::bytes::be32(b + tail, 8) == a.z
            &&& n >= 4 ==> crate::bytes::be32(b + tail, 12) == a.w
        }),
{
    let b = crate::pso_write::vector_bytes(a, n) + tail;
    assert(b.subrange(0, 4) =~= crate::bytes::be32_bytes(a.x));
    assert(b.subrange(4, 8) =~= crate::bytes::be32_bytes(a.y));
    if n >= 3 {
        assert(b.subrange(8, 12) =~= crate::bytes::be32_bytes(a.z));
    }
    if n >= 4 {
        assert(b.subrange(12, 16) =~= crate::bytes::be32_bytes(a.w));
    }
    crate::bytes::law_u32_round_trip(a.x);
    crate::bytes::law_u32_round_trip(a.y);
    crate::bytes::law_u32_round_trip(a.z);
    crate::bytes::law_u32_round_trip(a.w);
}

/// The bytes of a value of an integer type.
proof fn lemma_integer(ty: u8, in_array: bool, v: ValueView)
    requires
        crate::pso_laws::fits::fits_number(ty, in_array, v),
        ty != T_F32 && ty != T_VEC2 && ty != T_VEC3 && ty != T_VEC4 && ty != T_VEC3A && ty
            != T_VEC4A,
    ensures
        ({
            let t = crate::pso::type_of(ty)->0;
            let size = crate::pso::scalar_len(t);
            let b = crate::pso_write::integer_bytes(number(v), size);
            &&& b.len() == size
            &&& crate::pso::scalar_value(t, in_array, b) == v
        }),
{
    lemma_casts(
        if v is I8 {
            v->I8_0
        } else {
            0
        },
        if v is I16 {
            v->I16_0
        } else {
            0
        },
        if v is I32 {
            v->I32_0
        } else {
            0
        },
        if v is U64 {
            v->U64_0
        } else {
            0
        },
    );
    let n = number(v);
    lemma_words(n as u16, n as u32, n as u64);
}

/// The type of a number is none that holds something else.
pub open spec fn is_number(t: PsoType) -> bool {
    t != PsoType::String && t != PsoType::Enum && t != PsoType::Flags && t != PsoType::Structure
        && t != PsoType::Array && t != PsoType::MapType
}

/// A number comes back from a member, whatever follows it.
pub proof fn lemma_number(
    c: Context,
    def: PsoStructDefView,
    e: PsoEntryDef,
    v: ValueView,
)
    requires
        crate::pso_laws::fits::fits_number(e.ty, false, v),
    ensures
        crate::pso::type_of(e.ty) is Some,
        ({
            let t = crate::pso::type_of(e.ty)->0;
            let b = crate::pso_write::plain_bytes(c, def, e, v);
            let n = crate::pso::scalar_len(t);
            &&& is_number(t)
            &&& b is Some
            &&& crate::pso_write::plain_need(e) == Some(b->0.len() as int)
            &&& n <= b->0.len()
            &&& crate::pso::scalar_value(t, false, b->0.subrange(0, n)) == v
        }),
{
    let none = Seq::<u8>::empty();
    if e.ty == T_F32 {
        crate::bytes::law_u32_round_trip(v->F32_0);
        let b = crate::bytes::be32_bytes(v->F32_0);
        assert(b.subrange(0, 4) =~= b);
    } else if e.ty == T_VEC2 || e.ty == T_VEC3 || e.ty == T_VEC4 || e.ty == T_VEC3A || e.ty
        == T_VEC4A {
        let n = crate::pso_write::components(e.ty);
        let a = crate::coerce::as_vector(v, n, c.floats)->0;
        lemma_vector(a, n, none);
        let b = crate::pso_write::vector_bytes(a, n);
        assert(b + none =~= b);
    } else {
        lemma_integer(e.ty, false, v);
        let t = crate::pso::type_of(e.ty)->0;
        let b = crate::pso_write::integer_bytes(number(v), crate::pso::scalar_len(t));
        assert(b.subrange(0, b.len() as int) =~= b);
    }
}

/// An element that holds a number comes back.
pub proof fn lemma_number_item(f: PsoView, c: Context, x: PsoEntryDef, v: ValueView)
    requires
        crate::pso_laws::fits::fits_number(x.ty, true, v),
    ensures
        crate::pso::type_of(x.ty) is Some,
        ({
            let t = crate::pso::type_of(x.ty)->0;
            let b = crate::pso_write::scalar_item(c, x, v);
            &&& is_number(t)
            &&& b is Some
            &&& b->0.len() == crate::pso::stride_of(f, crate::pso_laws::fits::info_entry(x), t)
            &&& crate::pso::scalar_value(t, true, b->0) == v
        }),
{
    if x.ty == T_F32 {
        crate::bytes::law_u32_round_trip(v->F32_0);
    } else if x.ty == T_VEC2 || x.ty == T_VEC3 || x.ty == T_VEC4 || x.ty == T_VEC3A || x.ty
        == T_VEC4A {
        let n = crate::pso_write::components(x.ty);
        let a = crate::coerce::as_vector(v, n, c.floats)->0;
        let room: int = if x.ty == T_VEC2 {
            8
        } else {
            16
        };
        lemma_vector(a, n, crate::bytes::zeros(room - 4 * n));
    } else {
        lemma_integer(x.ty, true, v);
    }
}

/// The bytes of an enum value or a bit set.
pub proof fn lemma_sized(n: u32, value: i32)
    ensures
        ({
            let four = crate::pso_write::sized_bytes(n, 4);
            let two = crate::pso_write::sized_bytes(n, 2);
            let one = crate::pso_write::sized_bytes(n, 1);
            &&& four.len() == 4 && two.len() == 2 && one.len() == 1
            &&& crate::bytes::be32(four, 0) == n
            &&& n == value as u32 ==> crate::bytes::be32(four, 0) as i32 == value
            &&& n <= 0xFFFF ==> crate::bytes::be16(two, 0) as u32 == n
            &&& n <= 0xFF ==> one[0] as u32 == n
            &&& n == value as u32 && 0 <= value <= 0xFF ==> one[0] as i32 == value
        }),
{
    lemma_words(n as u16, n, 0);
    lemma_narrow(n);
    lemma_casts(0, 0, value, 0);
    if 0 <= value <= 0xFF {
        lemma_small(value);
    }
}

} // verus!
