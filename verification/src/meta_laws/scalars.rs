//! Plain values come back from the bytes they are stored as.

use vstd::prelude::*;

use crate::math::Vec4;
use crate::meta_schema::{MetaType, MetaView};
use crate::meta_write::{
    T_BOOL, T_BYTE_ENUM, T_CHAR_ARRAY, T_F32, T_HASH, T_INT_ENUM, T_INT_FLAGS1, T_INT_FLAGS2,
    T_SHORT_FLAGS, T_VEC3, T_VEC4,
};
use crate::pso_write::Context;
use crate::schema::MetaEntryDef;
use crate::value::ValueView;

verus! {

proof fn lemma_casts(a: i8, b: u8, c: i16, d: u16, e: i32, f: u32)
    ensures
        ((a as i64) as u8) as i8 == a,
        (b as i64) as u8 == b,
        ((c as i64) as u16) as i16 == c,
        (d as i64) as u16 == d,
        ((e as i64) as u32) as i32 == e,
        (e as u32) as i32 == e,
        (f as i64) as u32 == f,
{
    assert(((a as i64) as u8) as i8 == a) by (bit_vector);
    assert(((c as i64) as u16) as i16 == c) by (bit_vector);
    assert(((e as i64) as u32) as i32 == e && (e as u32) as i32 == e) by (bit_vector);
}

proof fn lemma_small(e: i32)
    requires
        0 <= e <= 0xFF,
    ensures
        (e as u8) as i32 == e,
        ((e as i64) as u8) as i32 == e,
{
}

proof fn lemma_short(b: u32)
    requires
        b <= 0xFFFF,
    ensures
        (b as u16) as u32 == b,
        ((b as i64) as u16) as u32 == b,
{
}

/// The integer that a value of an integer type is.
pub open spec fn number(v: ValueView) -> i64 {
    match v {
        ValueView::Bool(b) => if b {
            1
        } else {
            0
        },
        ValueView::I8(x) => x as i64,
        ValueView::U8(x) => x as i64,
        ValueView::I16(x) => x as i64,
        ValueView::U16(x) => x as i64,
        ValueView::I32(x) => x as i64,
        ValueView::U32(x) => x as i64,
        ValueView::Enum { value, .. } => value as i64,
        ValueView::Flags { bits, .. } => bits as i64,
        _ => 0,
    }
}

proof fn lemma_words(x: u16, y: u32)
    ensures
        crate::bytes::le16(crate::bytes::le16_bytes(x), 0) == x,
        crate::bytes::le32(crate::bytes::le32_bytes(y), 0) == y,
{
    crate::bytes::law_u16_round_trip(x);
    crate::bytes::law_u32_round_trip(y);
}

pub proof fn lemma_three(a: Vec4, tail: Seq<u8>)
    ensures
        crate::meta_write::three(a).len() == 12,
        crate::bytes::le32(crate::meta_write::three(a) + tail, 0) == a.x,
        crate::bytes::le32(crate::meta_write::three(a) + tail, 4) == a.y,
        crate::bytes::le32(crate::meta_write::three(a) + tail, 8) == a.z,
{
    broadcast use crate::bytes::group_subrange_reads;

    let b = crate::meta_write::three(a) + tail;
    assert(b.subrange(0, 4) =~= crate::bytes::le32_bytes(a.x));
    assert(b.subrange(4, 8) =~= crate::bytes::le32_bytes(a.y));
    assert(b.subrange(8, 12) =~= crate::bytes::le32_bytes(a.z));
    crate::bytes::law_u32_round_trip(a.x);
    crate::bytes::law_u32_round_trip(a.y);
    crate::bytes::law_u32_round_trip(a.z);
}

pub proof fn lemma_four(a: Vec4)
    ensures
        crate::meta_write::four(a).len() == 16,
        crate::bytes::le32(crate::meta_write::four(a), 0) == a.x,
        crate::bytes::le32(crate::meta_write::four(a), 4) == a.y,
        crate::bytes::le32(crate::meta_write::four(a), 8) == a.z,
        crate::bytes::le32(crate::meta_write::four(a), 12) == a.w,
{
    broadcast use crate::bytes::group_subrange_reads;

    let b = crate::meta_write::four(a);
    lemma_three(a, crate::bytes::le32_bytes(a.w));
    assert(b.subrange(12, 16) =~= crate::bytes::le32_bytes(a.w));
    crate::bytes::law_u32_round_trip(a.w);
}

/// The bytes of a value of an integer type, an enum or a bit set.
pub proof fn lemma_integer(f: MetaView, ty: u8, ref_key: u32, v: ValueView)
    requires
        crate::meta_laws::fits::fits_plain(f, ty, ref_key, v),
        ty != T_F32 && ty != T_VEC3 && ty != T_VEC4 && ty != T_HASH,
    ensures
        ({
            let t = crate::meta_schema::type_of(ty)->0;
            let size = crate::meta_schema::scalar_len(t);
            let b = crate::meta_write::integer_bytes(number(v), size);
            &&& b.len() == size
            &&& crate::meta_schema::scalar_value(f, t, ref_key, b) == v
        }),
{
    lemma_casts(
        if v is I8 {
            v->I8_0
        } else {
            0
        },
        0,
        if v is I16 {
            v->I16_0
        } else {
            0
        },
        0,
        if v is I32 {
            v->I32_0
        } else if v is Enum {
            v->value
        } else {
            0
        },
        0,
    );
    let n = number(v);
    lemma_words(n as u16, n as u32);
    if v is Enum {
        if ty == T_BYTE_ENUM {
            lemma_small(v->value);
        }
    }
    if v is Flags {
        if ty == T_SHORT_FLAGS {
            lemma_short(v->bits);
        }
    }
}

/// A plain value comes back from a member.
pub proof fn lemma_plain(f: MetaView, c: Context, e: MetaEntryDef, v: ValueView)
    requires
        crate::meta_laws::fits::fits_plain(f, e.ty, e.ref_key, v),
    ensures
        crate::meta_schema::type_of(e.ty) is Some,
        e.ty != T_CHAR_ARRAY,
        ({
            let t = crate::meta_schema::type_of(e.ty)->0;
            let b = crate::meta_write::plain_bytes(c, e, v);
            &&& b is Some
            &&& crate::meta_write::plain_need(e) == Some(b->0.len() as int)
            &&& b->0.len() == crate::meta_schema::scalar_len(t)
            &&& b->0.len() > 0
            &&& crate::meta_schema::scalar_value(f, t, e.ref_key, b->0) == v
        }),
{
    if e.ty == T_F32 {
        crate::bytes::law_u32_round_trip(v->F32_0);
    } else if e.ty == T_HASH {
        crate::bytes::law_u32_round_trip(v->Hash_0);
    } else if e.ty == T_VEC3 {
        let a = crate::coerce::as_vector(v, 3, c.floats)->0;
        lemma_three(a, Seq::empty());
        assert(crate::meta_write::three(a) + Seq::<u8>::empty() =~= crate::meta_write::three(a));
    } else if e.ty == T_VEC4 {
        lemma_four(v->Vec4_0);
    } else {
        lemma_integer(f, e.ty, e.ref_key, v);
        if e.ty == T_BOOL {
        } else if e.ty == T_BYTE_ENUM {
            lemma_small(v->value);
        } else if e.ty == T_INT_ENUM {
            lemma_casts(0, 0, 0, 0, v->value, 0);
            lemma_words(0, v->value as u32);
        } else if e.ty == T_SHORT_FLAGS {
            lemma_short(v->bits);
            lemma_words(v->bits as u16, 0);
        } else if e.ty == T_INT_FLAGS1 || e.ty == T_INT_FLAGS2 {
            lemma_words(0, v->bits);
        }
    }
}

/// A plain value comes back from an element of an array.
pub proof fn lemma_item(f: MetaView, c: Context, x: MetaEntryDef, v: ValueView)
    requires
        crate::meta_laws::fits::fits_plain(f, x.ty, x.ref_key, v),
    ensures
        crate::meta_schema::type_of(x.ty) is Some,
        crate::meta_write::is_scalar_run(x),
        crate::meta_write::run_refused(c, x) is None,
        ({
            let t = crate::meta_schema::type_of(x.ty)->0;
            let b = crate::meta_write::scalar_item(c, x, v);
            &&& b is Some
            &&& b->0.len() == crate::meta_schema::stride_of(f, t, x.ref_key)
            &&& b->0.len() > 0
            &&& crate::meta_schema::scalar_value(f, t, x.ref_key, b->0) == v
            &&& t != MetaType::Structure && t != MetaType::CharArray && t != MetaType::ByteArray
                && t != MetaType::Array && t != MetaType::CharPointer && t
                != MetaType::StructurePointer && t != MetaType::DataBlockPointer
        }),
{
    if x.ty == T_F32 {
        crate::bytes::law_u32_round_trip(v->F32_0);
    } else if x.ty == T_HASH {
        crate::bytes::law_u32_round_trip(v->Hash_0);
    } else if x.ty == T_VEC3 {
        let a = crate::coerce::as_vector(v, 3, c.floats)->0;
        lemma_four(a);
    } else if x.ty == T_VEC4 {
        lemma_four(v->Vec4_0);
    } else {
        lemma_integer(f, x.ty, x.ref_key, v);
    }
}

} // verus!
