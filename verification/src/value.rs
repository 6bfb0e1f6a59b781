//! The tree of values that every self-describing format decodes to.

use vstd::prelude::*;

use crate::hash::rage_joaat;
use crate::single::{i64_to_single, singles_alike};
use crate::math::{Vec2, Vec3, Vec4};
use crate::warning::Warning;

verus! {

/// One value in the tree.
#[derive(Debug, PartialEq)]
pub enum MetaValue {
    /// A null pointer, or a value that could not be read (the walker's
    /// warnings say why).
    Null,
    Bool(bool),
    I8(i8),
    U8(u8),
    I16(i16),
    U16(u16),
    I32(i32),
    U32(u32),
    I64(i64),
    U64(u64),
    /// A single, by its bits.
    F32(u32),
    Vec2(Vec2),
    Vec3(Vec3),
    Vec4(Vec4),
    /// A JOAAT hash standing for a name (an archetype, a texture dictionary,
    /// a map name…).
    Hash(u32),
    Str(String),
    /// An enum member: the enum's name hash, the stored value and the member
    /// name hash when the schema knows it.
    Enum { enum_hash: u32, value: i32, name: Option<u32> },
    /// A bit set: the enum naming the bits, the stored bits, and the member
    /// name hashes of the set bits (empty when the schema names none).
    Flags { enum_hash: u32, bits: u32, names: Vec<u32> },
    /// Raw bytes: byte arrays, and any field type the walker does not decode.
    Bytes(Vec<u8>),
    Array(MetaArray),
    /// Key/value pairs of a `Map` field.
    Pairs(Vec<(MetaValue, MetaValue)>),
    Struct(MetaStruct),
}

/// An array field. `item_type` is the structure name hash of the elements
/// when they are structures (what CodeWalker's XML writes as `itemType`);
/// `typed_items` says the elements were reached through pointers and may
/// each be a different (derived) structure, which the XML shows as
/// `<Item type="…">`.
#[derive(Debug, PartialEq)]
pub struct MetaArray {
    pub item_type: Option<u32>,
    pub typed_items: bool,
    pub items: Vec<MetaValue>,
}

/// A structure instance: its type's name hash and its members in schema
/// order.
#[derive(Debug, PartialEq)]
pub struct MetaStruct {
    pub type_hash: u32,
    pub fields: Vec<(u32, MetaValue)>,
}

/// The model of a [`MetaValue`].
#[verifier::ext_equal]
pub enum ValueView {
    Null,
    Bool(bool),
    I8(i8),
    U8(u8),
    I16(i16),
    U16(u16),
    I32(i32),
    U32(u32),
    I64(i64),
    U64(u64),
    F32(u32),
    Vec2(Vec2),
    Vec3(Vec3),
    Vec4(Vec4),
    Hash(u32),
    Str(Seq<char>),
    Enum { enum_hash: u32, value: i32, name: Option<u32> },
    Flags { enum_hash: u32, bits: u32, names: Seq<u32> },
    Bytes(Seq<u8>),
    Array(ArrayView),
    Pairs(Seq<(ValueView, ValueView)>),
    Struct(StructView),
}

/// The model of a [`MetaArray`].
#[verifier::ext_equal]
pub struct ArrayView {
    pub item_type: Option<u32>,
    pub typed_items: bool,
    pub items: Seq<ValueView>,
}

/// The model of a [`MetaStruct`].
#[verifier::ext_equal]
pub struct StructView {
    pub type_hash: u32,
    pub fields: Seq<(u32, ValueView)>,
}

/// The model of a value.
pub open spec fn value_view(v: MetaValue) -> ValueView
    decreases v,
{
    match v {
        MetaValue::Null => ValueView::Null,
        MetaValue::Bool(b) => ValueView::Bool(b),
        MetaValue::I8(n) => ValueView::I8(n),
        MetaValue::U8(n) => ValueView::U8(n),
        MetaValue::I16(n) => ValueView::I16(n),
        MetaValue::U16(n) => ValueView::U16(n),
        MetaValue::I32(n) => ValueView::I32(n),
        MetaValue::U32(n) => ValueView::U32(n),
        MetaValue::I64(n) => ValueView::I64(n),
        MetaValue::U64(n) => ValueView::U64(n),
        MetaValue::F32(n) => ValueView::F32(n),
        MetaValue::Vec2(p) => ValueView::Vec2(p),
        MetaValue::Vec3(p) => ValueView::Vec3(p),
        MetaValue::Vec4(p) => ValueView::Vec4(p),
        MetaValue::Hash(h) => ValueView::Hash(h),
        MetaValue::Str(s) => ValueView::Str(s@),
        MetaValue::Enum { enum_hash, value, name } => ValueView::Enum { enum_hash, value, name },
        MetaValue::Flags { enum_hash, bits, names } => ValueView::Flags {
            enum_hash,
            bits,
            names: names@,
        },
        MetaValue::Bytes(b) => ValueView::Bytes(b@),
        MetaValue::Array(a) => ValueView::Array(array_view(a)),
        MetaValue::Pairs(pairs) => ValueView::Pairs(
            Seq::new(
                pairs@.len(),
                |i: int|
                    if 0 <= i < pairs@.len() {
                        (value_view(pairs@[i].0), value_view(pairs@[i].1))
                    } else {
                        arbitrary()
                    },
            ),
        ),
        MetaValue::Struct(s) => ValueView::Struct(struct_view(s)),
    }
}

/// The model of an array.
pub open spec fn array_view(a: MetaArray) -> ArrayView
    decreases a,
{
    ArrayView {
        item_type: a.item_type,
        typed_items: a.typed_items,
        items: Seq::new(
            a.items@.len(),
            |i: int|
                if 0 <= i < a.items@.len() {
                    value_view(a.items@[i])
                } else {
                    arbitrary()
                },
        ),
    }
}

/// The model of a structure.
pub open spec fn struct_view(s: MetaStruct) -> StructView
    decreases s,
{
    StructView {
        type_hash: s.type_hash,
        fields: Seq::new(
            s.fields@.len(),
            |i: int|
                if 0 <= i < s.fields@.len() {
                    (s.fields@[i].0, value_view(s.fields@[i].1))
                } else {
                    arbitrary()
                },
        ),
    }
}

impl View for MetaValue {
    type V = ValueView;

    open spec fn view(&self) -> ValueView {
        value_view(*self)
    }
}

impl View for MetaArray {
    type V = ArrayView;

    open spec fn view(&self) -> ArrayView {
        array_view(*self)
    }
}

impl View for MetaStruct {
    type V = StructView;

    open spec fn view(&self) -> StructView {
        struct_view(*self)
    }
}

/// The models of a list of values.
pub open spec fn values_view(items: Seq<MetaValue>) -> Seq<ValueView> {
    Seq::new(items.len(), |i: int| value_view(items[i]))
}

/// The models of a list of members.
pub open spec fn fields_view(fields: Seq<(u32, MetaValue)>) -> Seq<(u32, ValueView)> {
    Seq::new(fields.len(), |i: int| (fields[i].0, value_view(fields[i].1)))
}

/// The models of a list of pairs.
pub open spec fn pairs_view(pairs: Seq<(MetaValue, MetaValue)>) -> Seq<(ValueView, ValueView)> {
    Seq::new(pairs.len(), |i: int| (value_view(pairs[i].0), value_view(pairs[i].1)))
}

/// The first field of that name.
pub open spec fn field_of(fields: Seq<(u32, ValueView)>, name: u32) -> Option<ValueView>
    decreases fields.len(),
{
    if fields.len() == 0 {
        None
    } else if fields[0].0 == name {
        Some(fields[0].1)
    } else {
        field_of(fields.skip(1), name)
    }
}

/// The model behind an optional value.
pub open spec fn opt_view(r: Option<&MetaValue>) -> Option<ValueView> {
    match r {
        Some(v) => Some(v@),
        None => None,
    }
}

impl MetaValue {
    /// A copy of the value.
    pub fn copy(&self) -> (r: MetaValue)
        ensures
            r@ == self@,
        decreases self,
    {
        match self {
            MetaValue::Null => MetaValue::Null,
            MetaValue::Bool(b) => MetaValue::Bool(*b),
            MetaValue::I8(n) => MetaValue::I8(*n),
            MetaValue::U8(n) => MetaValue::U8(*n),
            MetaValue::I16(n) => MetaValue::I16(*n),
            MetaValue::U16(n) => MetaValue::U16(*n),
            MetaValue::I32(n) => MetaValue::I32(*n),
            MetaValue::U32(n) => MetaValue::U32(*n),
            MetaValue::I64(n) => MetaValue::I64(*n),
            MetaValue::U64(n) => MetaValue::U64(*n),
            MetaValue::F32(n) => MetaValue::F32(*n),
            MetaValue::Vec2(p) => MetaValue::Vec2(*p),
            MetaValue::Vec3(p) => MetaValue::Vec3(*p),
            MetaValue::Vec4(p) => MetaValue::Vec4(*p),
            MetaValue::Hash(h) => MetaValue::Hash(*h),
            MetaValue::Str(s) => MetaValue::Str(s.clone()),
            MetaValue::Enum { enum_hash, value, name } => MetaValue::Enum {
                enum_hash: *enum_hash,
                value: *value,
                name: *name,
            },
            MetaValue::Flags { enum_hash, bits, names } => MetaValue::Flags {
                enum_hash: *enum_hash,
                bits: *bits,
                names: copy_words(names),
            },
            MetaValue::Bytes(b) => MetaValue::Bytes(crate::bytes::to_vec(b.as_slice())),
            MetaValue::Array(a) => {
                let mut items: Vec<MetaValue> = Vec::new();
                let mut i: usize = 0;
                while i < a.items.len()
                    invariant
                        i <= a.items@.len(),
                        *self == MetaValue::Array(*a),
                        items@.len() == i,
                        forall|k: int| 0 <= k < i ==> (#[trigger] items@[k])@ == a.items@[k]@,
                    decreases a.items@.len() - i,
                {
                    let item = &a.items[i];
                    assert(*item == a.items@[i as int]);
                    assert(decreases_to!(a.items@ => a.items@[i as int]));
                    assert(decreases_to!(self => self->Array_0));
                    assert(decreases_to!(a => a.items));
                    assert(decreases_to!(a.items => a.items@));
                    items.push(item.copy());
                    i += 1;
                }
                let r = MetaArray { item_type: a.item_type, typed_items: a.typed_items, items };
                assert(r@.items =~= a@.items);
                MetaValue::Array(r)
            },
            MetaValue::Pairs(p) => {
                let mut pairs: Vec<(MetaValue, MetaValue)> = Vec::new();
                let mut i: usize = 0;
                while i < p.len()
                    invariant
                        i <= p@.len(),
                        *self == MetaValue::Pairs(*p),
                        pairs@.len() == i,
                        forall|k: int|
                            0 <= k < i ==> (#[trigger] pairs@[k]).0@ == p@[k].0@ && pairs@[k].1@
                                == p@[k].1@,
                    decreases p@.len() - i,
                {
                    let pair = &p[i];
                    assert(*pair == p@[i as int]);
                    assert(decreases_to!(p@ => p@[i as int]));
                    assert(decreases_to!(self => self->Pairs_0));
                    assert(decreases_to!(p => p@));
                    assert(decreases_to!(p@[i as int] => p@[i as int].0));
                    assert(decreases_to!(p@[i as int] => p@[i as int].1));
                    let key = pair.0.copy();
                    let value = pair.1.copy();
                    pairs.push((key, value));
                    i += 1;
                }
                let r = MetaValue::Pairs(pairs);
                assert(r@->Pairs_0 =~= self@->Pairs_0);
                r
            },
            MetaValue::Struct(s) => {
                let mut fields: Vec<(u32, MetaValue)> = Vec::new();
                let mut i: usize = 0;
                while i < s.fields.len()
                    invariant
                        i <= s.fields@.len(),
                        *self == MetaValue::Struct(*s),
                        fields@.len() == i,
                        forall|k: int|
                            0 <= k < i ==> (#[trigger] fields@[k]).0 == s.fields@[k].0
                                && fields@[k].1@ == s.fields@[k].1@,
                    decreases s.fields@.len() - i,
                {
                    let field = &s.fields[i];
                    assert(*field == s.fields@[i as int]);
                    assert(decreases_to!(s.fields@ => s.fields@[i as int]));
                    assert(decreases_to!(self => self->Struct_0));
                    assert(decreases_to!(s => s.fields));
                    assert(decreases_to!(s.fields => s.fields@));
                    assert(decreases_to!(s.fields@[i as int] => s.fields@[i as int].1));
                    let value = field.1.copy();
                    fields.push((field.0, value));
                    i += 1;
                }
                let r = MetaStruct { type_hash: s.type_hash, fields };
                assert(r@.fields =~= s@.fields);
                MetaValue::Struct(r)
            },
        }
    }
}

/// Whether two values are written alike: the same, except that a single that
/// is no number is written as any other such single is.
pub open spec fn alike(a: ValueView, b: ValueView) -> bool
    decreases a,
{
    match (a, b) {
        (ValueView::F32(x), ValueView::F32(y)) => crate::single::alike_singles(x, y),
        (ValueView::Vec2(p), ValueView::Vec2(q)) => {
            &&& crate::single::alike_singles(p.x, q.x)
            &&& crate::single::alike_singles(p.y, q.y)
        },
        (ValueView::Vec3(p), ValueView::Vec3(q)) => {
            &&& crate::single::alike_singles(p.x, q.x)
            &&& crate::single::alike_singles(p.y, q.y)
            &&& crate::single::alike_singles(p.z, q.z)
        },
        (ValueView::Vec4(p), ValueView::Vec4(q)) => {
            &&& crate::single::alike_singles(p.x, q.x)
            &&& crate::single::alike_singles(p.y, q.y)
            &&& crate::single::alike_singles(p.z, q.z)
            &&& crate::single::alike_singles(p.w, q.w)
        },
        (ValueView::Array(x), ValueView::Array(y)) => {
            &&& x.item_type == y.item_type
            &&& x.typed_items == y.typed_items
            &&& x.items.len() == y.items.len()
            &&& forall|i: int|
                0 <= i < x.items.len() ==> alike(#[trigger] x.items[i], y.items[i])
        },
        (ValueView::Pairs(p), ValueView::Pairs(q)) => {
            &&& p.len() == q.len()
            &&& forall|i: int|
                0 <= i < p.len() ==> alike((#[trigger] p[i]).0, q[i].0) && alike(p[i].1, q[i].1)
        },
        (ValueView::Struct(s), ValueView::Struct(t)) => {
            &&& s.type_hash == t.type_hash
            &&& s.fields.len() == t.fields.len()
            &&& forall|i: int|
                0 <= i < s.fields.len() ==> (#[trigger] s.fields[i]).0 == t.fields[i].0 && alike(
                    s.fields[i].1,
                    t.fields[i].1,
                )
        },
        _ => a == b,
    }
}

impl MetaValue {
    /// Whether two values are written alike.
    pub fn same(&self, other: &MetaValue) -> (r: bool)
        ensures
            r == alike(self@, other@),
        decreases self,
    {
        match (self, other) {
            (MetaValue::Null, MetaValue::Null) => true,
            (MetaValue::Bool(a), MetaValue::Bool(b)) => *a == *b,
            (MetaValue::I8(a), MetaValue::I8(b)) => *a == *b,
            (MetaValue::U8(a), MetaValue::U8(b)) => *a == *b,
            (MetaValue::I16(a), MetaValue::I16(b)) => *a == *b,
            (MetaValue::U16(a), MetaValue::U16(b)) => *a == *b,
            (MetaValue::I32(a), MetaValue::I32(b)) => *a == *b,
            (MetaValue::U32(a), MetaValue::U32(b)) => *a == *b,
            (MetaValue::I64(a), MetaValue::I64(b)) => *a == *b,
            (MetaValue::U64(a), MetaValue::U64(b)) => *a == *b,
            (MetaValue::F32(a), MetaValue::F32(b)) => singles_alike(*a, *b),
            (MetaValue::Vec2(a), MetaValue::Vec2(b)) => singles_alike(a.x, b.x) && singles_alike(
                a.y,
                b.y,
            ),
            (MetaValue::Vec3(a), MetaValue::Vec3(b)) => singles_alike(a.x, b.x) && singles_alike(
                a.y,
                b.y,
            ) && singles_alike(a.z, b.z),
            (MetaValue::Vec4(a), MetaValue::Vec4(b)) => singles_alike(a.x, b.x) && singles_alike(
                a.y,
                b.y,
            ) && singles_alike(a.z, b.z) && singles_alike(a.w, b.w),
            (MetaValue::Hash(a), MetaValue::Hash(b)) => *a == *b,
            (MetaValue::Str(a), MetaValue::Str(b)) => {
                let x = crate::text::chars_of(a.as_str());
                let y = crate::text::chars_of(b.as_str());
                crate::chars::same_chars(x.as_slice(), y.as_slice())
            },
            (
                MetaValue::Enum { enum_hash, value, name },
                MetaValue::Enum { enum_hash: h2, value: v2, name: n2 },
            ) => *enum_hash == *h2 && *value == *v2 && same_name(*name, *n2),
            (
                MetaValue::Flags { enum_hash, bits, names },
                MetaValue::Flags { enum_hash: h2, bits: b2, names: n2 },
            ) => *enum_hash == *h2 && *bits == *b2 && same_words(names, n2),
            (MetaValue::Bytes(a), MetaValue::Bytes(b)) => same_bytes(a, b),
            (MetaValue::Array(a), MetaValue::Array(b)) => {
                if !same_name(a.item_type, b.item_type) || a.typed_items != b.typed_items
                    || a.items.len() != b.items.len() {
                    assert(a@.item_type != b@.item_type || a@.typed_items != b@.typed_items
                        || a@.items.len() != b@.items.len());
                    return false;
                }
                let mut i: usize = 0;
                while i < a.items.len()
                    invariant
                        i <= a.items@.len() == b.items@.len(),
                        *self == MetaValue::Array(*a),
                        *other == MetaValue::Array(*b),
                        forall|k: int|
                            0 <= k < i ==> alike((#[trigger] a.items@[k])@, b.items@[k]@),
                    decreases a.items@.len() - i,
                {
                    let item = &a.items[i];
                    assert(*item == a.items@[i as int]);
                    assert(decreases_to!(a.items@ => a.items@[i as int]));
                    assert(decreases_to!(self => self->Array_0));
                    assert(decreases_to!(a => a.items));
                    assert(decreases_to!(a.items => a.items@));
                    if !item.same(&b.items[i]) {
                        assert(!alike(a@.items[i as int], b@.items[i as int]));
                        return false;
                    }
                    i += 1;
                }
                assert forall|k: int| 0 <= k < a@.items.len() implies alike(
                    #[trigger] a@.items[k],
                    b@.items[k],
                ) by {
                    assert(a@.items[k] == a.items@[k]@);
                }
                true
            },
            (MetaValue::Pairs(p), MetaValue::Pairs(q)) => {
                if p.len() != q.len() {
                    assert(self@->Pairs_0.len() != other@->Pairs_0.len());
                    return false;
                }
                let mut i: usize = 0;
                while i < p.len()
                    invariant
                        i <= p@.len() == q@.len(),
                        *self == MetaValue::Pairs(*p),
                        *other == MetaValue::Pairs(*q),
                        forall|k: int|
                            0 <= k < i ==> alike((#[trigger] p@[k]).0@, q@[k].0@) && alike(
                                p@[k].1@,
                                q@[k].1@,
                            ),
                    decreases p@.len() - i,
                {
                    let pair = &p[i];
                    assert(*pair == p@[i as int]);
                    assert(decreases_to!(p@ => p@[i as int]));
                    assert(decreases_to!(self => self->Pairs_0));
                    assert(decreases_to!(p => p@));
                    assert(decreases_to!(p@[i as int] => p@[i as int].0));
                    assert(decreases_to!(p@[i as int] => p@[i as int].1));
                    if !pair.0.same(&q[i].0) || !pair.1.same(&q[i].1) {
                        assert(!alike(self@->Pairs_0[i as int].0, other@->Pairs_0[i as int].0)
                            || !alike(self@->Pairs_0[i as int].1, other@->Pairs_0[i as int].1));
                        return false;
                    }
                    i += 1;
                }
                assert forall|k: int| 0 <= k < self@->Pairs_0.len() implies alike(
                    (#[trigger] self@->Pairs_0[k]).0,
                    other@->Pairs_0[k].0,
                ) && alike(self@->Pairs_0[k].1, other@->Pairs_0[k].1) by {
                    assert(self@->Pairs_0[k] == (p@[k].0@, p@[k].1@));
                }
                true
            },
            (MetaValue::Struct(s), MetaValue::Struct(t)) => {
                if s.type_hash != t.type_hash || s.fields.len() != t.fields.len() {
                    assert(s@.type_hash != t@.type_hash || s@.fields.len() != t@.fields.len());
                    return false;
                }
                let mut i: usize = 0;
                while i < s.fields.len()
                    invariant
                        i <= s.fields@.len() == t.fields@.len(),
                        *self == MetaValue::Struct(*s),
                        *other == MetaValue::Struct(*t),
                        s.type_hash == t.type_hash,
                        forall|k: int|
                            0 <= k < i ==> (#[trigger] s.fields@[k]).0 == t.fields@[k].0
                                && alike(s.fields@[k].1@, t.fields@[k].1@),
                    decreases s.fields@.len() - i,
                {
                    let field = &s.fields[i];
                    assert(*field == s.fields@[i as int]);
                    assert(decreases_to!(s.fields@ => s.fields@[i as int]));
                    assert(decreases_to!(self => self->Struct_0));
                    assert(decreases_to!(s => s.fields));
                    assert(decreases_to!(s.fields => s.fields@));
                    assert(decreases_to!(s.fields@[i as int] => s.fields@[i as int].1));
                    if field.0 != t.fields[i].0 || !field.1.same(&t.fields[i].1) {
                        assert(s@.fields[i as int].0 != t@.fields[i as int].0 || !alike(
                            s@.fields[i as int].1,
                            t@.fields[i as int].1,
                        ));
                        return false;
                    }
                    i += 1;
                }
                assert forall|k: int| 0 <= k < s@.fields.len() implies (
                #[trigger] s@.fields[k]).0 == t@.fields[k].0 && alike(
                    s@.fields[k].1,
                    t@.fields[k].1,
                ) by {
                    assert(s@.fields[k] == (s.fields@[k].0, s.fields@[k].1@));
                }
                assert(self@ == ValueView::Struct(s@) && other@ == ValueView::Struct(t@));
                assert(s@.fields.len() == t@.fields.len());
                true
            },
            _ => false,
        }
    }
}

fn same_name(a: Option<u32>, b: Option<u32>) -> (r: bool)
    ensures
        r == (a == b),
{
    match (a, b) {
        (Some(x), Some(y)) => x == y,
        (None, None) => true,
        _ => false,
    }
}

fn same_words(a: &Vec<u32>, b: &Vec<u32>) -> (r: bool)
    ensures
        r == (a@ == b@),
{
    if a.len() != b.len() {
        return false;
    }
    let mut i: usize = 0;
    while i < a.len()
        invariant
            i <= a@.len() == b@.len(),
            forall|k: int| 0 <= k < i ==> a@[k] == b@[k],
        decreases a@.len() - i,
    {
        if a[i] != b[i] {
            return false;
        }
        i += 1;
    }
    assert(a@ =~= b@);
    true
}

fn same_bytes(a: &Vec<u8>, b: &Vec<u8>) -> (r: bool)
    ensures
        r == (a@ == b@),
{
    if a.len() != b.len() {
        return false;
    }
    let mut i: usize = 0;
    while i < a.len()
        invariant
            i <= a@.len() == b@.len(),
            forall|k: int| 0 <= k < i ==> a@[k] == b@[k],
        decreases a@.len() - i,
    {
        if a[i] != b[i] {
            return false;
        }
        i += 1;
    }
    assert(a@ =~= b@);
    true
}

impl Clone for MetaValue {
    fn clone(&self) -> (r: Self)
        ensures
            r@ == self@,
    {
        self.copy()
    }
}

/// A copy of a list of hashes.
pub fn copy_words(v: &Vec<u32>) -> (r: Vec<u32>)
    ensures
        r@ == v@,
{
    let mut out: Vec<u32> = Vec::new();
    let mut i: usize = 0;
    while i < v.len()
        invariant
            i <= v@.len(),
            out@ == v@.take(i as int),
        decreases v@.len() - i,
    {
        out.push(v[i]);
        i += 1;
        assert(out@ =~= v@.take(i as int));
    }
    assert(out@ =~= v@);
    out
}

impl MetaStruct {
    /// The member whose name hashes to `name_hash`.
    pub fn get(&self, name_hash: u32) -> (r: Option<&MetaValue>)
        ensures
            opt_view(r) == field_of(self@.fields, name_hash),
            r is Some ==> decreases_to!(self => r->0),
    {
        let mut i: usize = 0;
        assert(self@.fields.skip(0) =~= self@.fields);
        while i < self.fields.len()
            invariant
                i <= self.fields@.len(),
                field_of(self@.fields, name_hash) == field_of(
                    self@.fields.skip(i as int),
                    name_hash,
                ),
            decreases self.fields@.len() - i,
        {
            assert(self@.fields.skip(i as int)[0] == self@.fields[i as int]);
            if self.fields[i].0 == name_hash {
                let v = &self.fields[i].1;
                assert(decreases_to!(self.fields@[i as int] => v));
                return Some(v);
            }
            assert(self@.fields.skip(i as int).skip(1) =~= self@.fields.skip(i + 1));
            i += 1;
        }
        None
    }

    /// The member called `name` (exact case, as Meta names are).
    pub fn field(&self, name: &str) -> (r: Option<&MetaValue>)
        ensures
            opt_view(r) == field_of(self@.fields, crate::hash::name_hash(name@)),
    {
        self.get(rage_joaat(name))
    }
}

/// The number a value stands for, where it is any integer that fits.
pub open spec fn integer_of(v: ValueView) -> Option<i64> {
    match v {
        ValueView::Bool(b) => Some(
            if b {
                1
            } else {
                0
            },
        ),
        ValueView::I8(n) => Some(n as i64),
        ValueView::U8(n) => Some(n as i64),
        ValueView::I16(n) => Some(n as i64),
        ValueView::U16(n) => Some(n as i64),
        ValueView::I32(n) => Some(n as i64),
        ValueView::U32(n) => Some(n as i64),
        ValueView::I64(n) => Some(n),
        ValueView::U64(n) => if n <= i64::MAX {
            Some(n as i64)
        } else {
            None
        },
        ValueView::Enum { enum_hash: _, value, name: _ } => Some(value as i64),
        ValueView::Flags { enum_hash: _, bits, names: _ } => Some(bits as i64),
        _ => None,
    }
}

/// The number a value stands for, where a `u32` holds it.
pub open spec fn unsigned_of(v: ValueView) -> Option<u32> {
    match integer_of(v) {
        Some(n) => if 0 <= n <= u32::MAX {
            Some(n as u32)
        } else {
            None
        },
        None => None,
    }
}

/// The hash a value stands for: names are stored as hashes or as text.
pub open spec fn hash_of(v: ValueView) -> Option<u32> {
    match v {
        ValueView::Hash(h) => Some(h),
        ValueView::Str(s) => Some(crate::hash::name_hash(s)),
        ValueView::U32(n) => Some(n),
        _ => None,
    }
}

/// The elements of an array, or nothing for any other value.
pub open spec fn items_of(v: ValueView) -> Seq<ValueView> {
    match v {
        ValueView::Array(a) => a.items,
        _ => Seq::empty(),
    }
}

/// The first three components of a vector of three or four.
pub open spec fn triple_of(v: ValueView) -> Option<Vec3> {
    match v {
        ValueView::Vec3(p) => Some(p),
        ValueView::Vec4(p) => Some(Vec3 { x: p.x, y: p.y, z: p.z }),
        _ => None,
    }
}

/// The hashes among the first `n` values.
pub open spec fn hashes_among(items: Seq<ValueView>, n: nat) -> Seq<u32>
    decreases n,
{
    if n == 0 {
        Seq::empty()
    } else {
        match hash_of(items[n - 1]) {
            Some(h) => hashes_among(items, (n - 1) as nat).push(h),
            None => hashes_among(items, (n - 1) as nat),
        }
    }
}

impl MetaValue {
    pub fn as_struct(&self) -> (r: Option<&MetaStruct>)
        ensures
            r == (match *self {
                MetaValue::Struct(s) => Some(&s),
                _ => None,
            }),
    {
        match self {
            MetaValue::Struct(s) => Some(s),
            _ => None,
        }
    }

    pub fn as_array(&self) -> (r: Option<&MetaArray>)
        ensures
            r == (match *self {
                MetaValue::Array(a) => Some(&a),
                _ => None,
            }),
    {
        match self {
            MetaValue::Array(a) => Some(a),
            _ => None,
        }
    }

    /// The elements of an array, or nothing for any other value.
    pub fn items(&self) -> (r: &[MetaValue])
        ensures
            values_view(r@) == items_of(self@),
    {
        match self {
            MetaValue::Array(a) => {
                assert(self@ == ValueView::Array(a@));
                assert(values_view(a.items@) =~= a@.items);
                a.items.as_slice()
            },
            _ => {
                let none: &[MetaValue; 0] = &[];
                assert(values_view(none@) =~= Seq::<ValueView>::empty());
                none
            },
        }
    }

    pub fn as_str(&self) -> (r: Option<&str>)
        ensures
            match r {
                Some(t) => self@ == ValueView::Str(t@),
                None => !(self@ is Str),
            },
    {
        match self {
            MetaValue::Str(s) => Some(s.as_str()),
            _ => None,
        }
    }

    /// A hash, or the hash of a string value (names are stored either way).
    pub fn as_hash(&self) -> (r: Option<u32>)
        ensures
            r == hash_of(self@),
    {
        match self {
            MetaValue::Hash(h) => Some(*h),
            MetaValue::Str(s) => Some(rage_joaat(s.as_str())),
            MetaValue::U32(v) => Some(*v),
            _ => None,
        }
    }

    /// Any integer, widened.
    pub fn as_i64(&self) -> (r: Option<i64>)
        ensures
            r == integer_of(self@),
    {
        match self {
            MetaValue::Bool(b) => Some(
                if *b {
                    1
                } else {
                    0
                },
            ),
            MetaValue::I8(v) => Some(*v as i64),
            MetaValue::U8(v) => Some(*v as i64),
            MetaValue::I16(v) => Some(*v as i64),
            MetaValue::U16(v) => Some(*v as i64),
            MetaValue::I32(v) => Some(*v as i64),
            MetaValue::U32(v) => Some(*v as i64),
            MetaValue::I64(v) => Some(*v),
            MetaValue::U64(v) => if *v <= 0x7FFF_FFFF_FFFF_FFFF {
                Some(*v as i64)
            } else {
                None
            },
            MetaValue::Enum { value, .. } => Some(*value as i64),
            MetaValue::Flags { bits, .. } => Some(*bits as i64),
            _ => None,
        }
    }

    /// Any integer that fits, or the bits of a flag set.
    pub fn as_u32(&self) -> (r: Option<u32>)
        ensures
            r == unsigned_of(self@),
    {
        match self.as_i64() {
            Some(n) => if 0 <= n && n <= 0xFFFF_FFFF {
                Some(n as u32)
            } else {
                None
            },
            None => None,
        }
    }

    /// A single, by its bits; an integer is rounded to one.
    pub fn as_f32(&self) -> (r: Option<u32>)
        ensures
            r == (match self@ {
                ValueView::F32(b) => Some(b),
                v => match integer_of(v) {
                    Some(n) => Some(crate::single::from_integer(n as int)),
                    None => None,
                },
            }),
    {
        match self {
            MetaValue::F32(v) => Some(*v),
            _ => match self.as_i64() {
                Some(n) => Some(i64_to_single(n)),
                None => None,
            },
        }
    }

    pub fn as_vec3(&self) -> (r: Option<Vec3>)
        ensures
            r == (match self@ {
                ValueView::Vec3(v) => Some(v),
                ValueView::Vec4(v) => Some(Vec3 { x: v.x, y: v.y, z: v.z }),
                _ => None,
            }),
            r == triple_of(self@),
    {
        match self {
            MetaValue::Vec3(v) => Some(*v),
            MetaValue::Vec4(v) => Some(Vec3::new(v.x, v.y, v.z)),
            _ => None,
        }
    }

    /// The hashes of a hash array (or of a string array's names).
    pub fn hashes(&self) -> (r: Vec<u32>)
        ensures
            r@ == hashes_among(items_of(self@), items_of(self@).len()),
    {
        let items = self.items();
        let ghost all = items_of(self@);
        assert(values_view(items@).len() == items@.len());
        let mut out: Vec<u32> = Vec::new();
        let mut i: usize = 0;
        while i < items.len()
            invariant
                i <= items@.len() == all.len(),
                values_view(items@) == all,
                out@ == hashes_among(all, i as nat),
            decreases items@.len() - i,
        {
            assert(all[i as int] == items@[i as int]@);
            if let Some(h) = items[i].as_hash() {
                out.push(h);
            }
            i += 1;
        }
        out
    }
}

impl Default for MetaValue {
    fn default() -> (r: Self)
        ensures
            r@ == ValueView::Null,
    {
        MetaValue::Null
    }
}

impl Default for MetaArray {
    fn default() -> (r: Self)
        ensures
            r@ == (ArrayView { item_type: None, typed_items: false, items: Seq::empty() }),
    {
        let r = MetaArray { item_type: None, typed_items: false, items: Vec::new() };
        assert(r@.items =~= Seq::<ValueView>::empty());
        r
    }
}

impl Default for MetaStruct {
    fn default() -> (r: Self)
        ensures
            r@ == (StructView { type_hash: 0, fields: Seq::empty() }),
    {
        let r = MetaStruct { type_hash: 0, fields: Vec::new() };
        assert(r@.fields =~= Seq::<(u32, ValueView)>::empty());
        r
    }
}

/// How deep a value nests.
pub open spec fn height(v: ValueView) -> nat
    decreases v,
{
    match v {
        ValueView::Array(a) => list_height(a.items) + 1,
        ValueView::Pairs(p) => pairs_height(p) + 2,
        ValueView::Struct(s) => fields_height(s.fields) + 1,
        _ => 0,
    }
}

/// The larger of two heights.
pub open spec fn higher(a: nat, b: nat) -> nat {
    if a < b {
        b
    } else {
        a
    }
}

/// How deep the deepest of some values nests.
pub open spec fn list_height(items: Seq<ValueView>) -> nat
    decreases items,
{
    if items.len() == 0 {
        0
    } else {
        higher(list_height(items.drop_last()), height(items.last()))
    }
}

/// How deep the deepest of some pairs nests.
pub open spec fn pairs_height(pairs: Seq<(ValueView, ValueView)>) -> nat
    decreases pairs,
{
    if pairs.len() == 0 {
        0
    } else {
        higher(
            pairs_height(pairs.drop_last()),
            higher(height(pairs.last().0), height(pairs.last().1)),
        )
    }
}

/// How deep the deepest of some members nests.
pub open spec fn fields_height(fields: Seq<(u32, ValueView)>) -> nat
    decreases fields,
{
    if fields.len() == 0 {
        0
    } else {
        higher(fields_height(fields.drop_last()), height(fields.last().1))
    }
}

/// No item nests deeper than its list.
pub proof fn lemma_item_height(items: Seq<ValueView>, i: int)
    requires
        0 <= i < items.len(),
    ensures
        height(items[i]) <= list_height(items),
    decreases items.len(),
{
    if i < items.len() - 1 {
        lemma_item_height(items.drop_last(), i);
    }
}

/// Neither side of a pair nests deeper than the list.
pub proof fn lemma_pair_height(pairs: Seq<(ValueView, ValueView)>, i: int)
    requires
        0 <= i < pairs.len(),
    ensures
        height(pairs[i].0) <= pairs_height(pairs),
        height(pairs[i].1) <= pairs_height(pairs),
    decreases pairs.len(),
{
    if i < pairs.len() - 1 {
        lemma_pair_height(pairs.drop_last(), i);
    }
}

/// No member nests deeper than its structure.
pub proof fn lemma_field_height(fields: Seq<(u32, ValueView)>, name: u32)
    ensures
        field_of(fields, name) is Some ==> height(field_of(fields, name)->0) <= fields_height(
            fields,
        ),
    decreases fields.len(),
{
    if fields.len() > 0 {
        lemma_first_height(fields);
        if fields[0].0 != name {
            lemma_field_height(fields.skip(1), name);
        }
    }
}

proof fn lemma_first_height(fields: Seq<(u32, ValueView)>)
    requires
        fields.len() > 0,
    ensures
        fields_height(fields) == higher(height(fields[0].1), fields_height(fields.skip(1))),
    decreases fields.len(),
{
    if fields.len() == 1 {
        assert(fields.drop_last() =~= Seq::<(u32, ValueView)>::empty());
        assert(fields.skip(1) =~= Seq::<(u32, ValueView)>::empty());
    } else {
        lemma_first_height(fields.drop_last());
        assert(fields.skip(1).drop_last() =~= fields.drop_last().skip(1));
        assert(fields.skip(1).last() == fields.last());
    }
}

/// The name of the first enum member with that value.
pub open spec fn first_name(entries: Seq<(u32, i32)>, value: i32) -> Option<u32>
    decreases entries.len(),
{
    if entries.len() == 0 {
        None
    } else if entries[0].1 == value {
        Some(entries[0].0)
    } else {
        first_name(entries.skip(1), value)
    }
}

/// The name of the first enum member with that value.
pub fn enum_member_name(entries: &Vec<(u32, i32)>, value: i32) -> (r: Option<u32>)
    ensures
        r == first_name(entries@, value),
{
    let mut i: usize = 0;
    assert(entries@.skip(0) =~= entries@);
    while i < entries.len()
        invariant
            i <= entries@.len(),
            first_name(entries@, value) == first_name(entries@.skip(i as int), value),
        decreases entries@.len() - i,
    {
        assert(entries@.skip(i as int)[0] == entries@[i as int]);
        if entries[i].1 == value {
            return Some(entries[i].0);
        }
        assert(entries@.skip(i as int).skip(1) =~= entries@.skip(i + 1));
        i += 1;
    }
    None
}

/// Whether bit `v` is one of the 32 and set in `bits`.
pub open spec fn bit_set(bits: u32, v: i32) -> bool {
    0 <= v < 32 && bits & (1u32 << (v as u32)) != 0
}

/// The names of the enum members whose bits are set.
pub open spec fn flag_names(entries: Seq<(u32, i32)>, bits: u32) -> Seq<u32>
    decreases entries.len(),
{
    if entries.len() == 0 {
        Seq::empty()
    } else {
        let before = flag_names(entries.drop_last(), bits);
        if bit_set(bits, entries.last().1) {
            before.push(entries.last().0)
        } else {
            before
        }
    }
}

/// The names of the enum members whose bits are set.
pub fn set_flag_names(entries: &Vec<(u32, i32)>, bits: u32) -> (r: Vec<u32>)
    ensures
        r@ == flag_names(entries@, bits),
{
    let mut out: Vec<u32> = Vec::new();
    let mut i: usize = 0;
    while i < entries.len()
        invariant
            i <= entries@.len(),
            out@ == flag_names(entries@.take(i as int), bits),
        decreases entries@.len() - i,
    {
        let (name, v) = entries[i];
        assert(entries@.take(i + 1).drop_last() =~= entries@.take(i as int));
        if 0 <= v && v < 32 && bits & (1u32 << (v as u32)) != 0 {
            out.push(name);
        }
        i += 1;
    }
    assert(entries@.take(i as int) =~= entries@);
    out
}

/// What a generic walk produced: the tree plus everything it could not
/// decode faithfully. A walk never fails on an unsupported field; it leaves
/// bytes behind and says so here.
#[derive(Debug, PartialEq)]
pub struct MetaDump {
    pub root: MetaValue,
    pub warnings: Vec<Warning>,
}

} // verus!
