//! The tree that an RBF file holds: a flat record stream of named
//! structures, each with attributes and children.

use vstd::prelude::*;
use vstd::slice::*;
use vstd::string::*;

use crate::hash::rage_joaat;
use crate::math::Vec3;
use crate::resource::u32_le;
use crate::value::{ArrayView, MetaArray, MetaStruct, MetaValue, StructView, ValueView};

verus! {

broadcast use vstd::slice::group_slice_axioms;

/// `RBF0`.
pub const RBF_MAGIC: u32 = 0x3046_4252;

/// A value in an RBF file.
#[derive(Debug, PartialEq, Eq)]
pub enum RbfValue {
    Structure(RbfStructure),
    Bytes(Vec<u8>),
    Uint(u32),
    Bool(bool),
    /// A single, by its bits.
    Float(u32),
    Float3(Vec3),
    Str(String),
}

/// A named structure in an RBF file.
#[derive(Debug, PartialEq, Eq)]
pub struct RbfStructure {
    pub name: String,
    pub attributes: Vec<(String, RbfValue)>,
    pub children: Vec<(String, RbfValue)>,
}

/// The model of an [`RbfValue`].
#[verifier::ext_equal]
pub enum RbfValueView {
    Structure(RbfView),
    Bytes(Seq<u8>),
    Uint(u32),
    Bool(bool),
    Float(u32),
    Float3(Vec3),
    Str(Seq<char>),
}

/// The model of an [`RbfStructure`].
#[verifier::ext_equal]
pub struct RbfView {
    pub name: Seq<char>,
    pub attributes: Seq<(Seq<char>, RbfValueView)>,
    pub children: Seq<(Seq<char>, RbfValueView)>,
}

/// The model of a value.
pub open spec fn rbf_value_view(v: RbfValue) -> RbfValueView
    decreases v,
{
    match v {
        RbfValue::Structure(s) => RbfValueView::Structure(rbf_view(s)),
        RbfValue::Bytes(b) => RbfValueView::Bytes(b@),
        RbfValue::Uint(n) => RbfValueView::Uint(n),
        RbfValue::Bool(b) => RbfValueView::Bool(b),
        RbfValue::Float(bits) => RbfValueView::Float(bits),
        RbfValue::Float3(p) => RbfValueView::Float3(p),
        RbfValue::Str(s) => RbfValueView::Str(s@),
    }
}

/// The model of a structure.
pub open spec fn rbf_view(s: RbfStructure) -> RbfView
    decreases s,
{
    RbfView {
        name: s.name@,
        attributes: Seq::new(
            s.attributes@.len(),
            |i: int|
                if 0 <= i < s.attributes@.len() {
                    (s.attributes@[i].0@, rbf_value_view(s.attributes@[i].1))
                } else {
                    arbitrary()
                },
        ),
        children: Seq::new(
            s.children@.len(),
            |i: int|
                if 0 <= i < s.children@.len() {
                    (s.children@[i].0@, rbf_value_view(s.children@[i].1))
                } else {
                    arbitrary()
                },
        ),
    }
}

impl View for RbfStructure {
    type V = RbfView;

    open spec fn view(&self) -> RbfView {
        rbf_view(*self)
    }
}

/// The models of a list of members.
pub open spec fn members_view(s: Seq<(String, RbfValue)>) -> Seq<(Seq<char>, RbfValueView)> {
    Seq::new(s.len(), |i: int| (s[i].0@, rbf_value_view(s[i].1)))
}

/// Whether the bytes start like an RBF file.
pub fn is_rbf(data: &[u8]) -> (r: bool)
    ensures
        r == (data@.len() >= 4 && crate::bytes::le32(data@, 0) == RBF_MAGIC),
{
    data.len() >= 4 && u32_le(data, 0) == RBF_MAGIC
}

/// A value lifted into the generic tree.
pub open spec fn lifted_value(v: RbfValueView) -> ValueView
    decreases v, 2int,
{
    match v {
        RbfValueView::Structure(s) => lifted(s),
        RbfValueView::Bytes(b) => ValueView::Bytes(b),
        RbfValueView::Uint(n) => ValueView::U32(n),
        RbfValueView::Bool(b) => ValueView::Bool(b),
        RbfValueView::Float(bits) => ValueView::F32(bits),
        RbfValueView::Float3(p) => ValueView::Vec3(p),
        RbfValueView::Str(s) => ValueView::Str(s),
    }
}

/// Members lifted into the generic tree, under the hashes of their names.
pub open spec fn lifted_members(s: Seq<(Seq<char>, RbfValueView)>) -> Seq<(u32, ValueView)>
    decreases s, 0int,
{
    if s.len() == 0 {
        Seq::empty()
    } else {
        proof {
            assert(decreases_to!(s => s.last()));
            assert(decreases_to!(s.last() => s.last().1));
        }
        lifted_members(s.drop_last()).push(
            (crate::hash::name_hash(s.last().0), lifted_value(s.last().1)),
        )
    }
}

/// Whether a structure is a list: its children are all called `Item`.
pub open spec fn is_list(s: RbfView) -> bool {
    &&& s.attributes.len() == 0
    &&& s.children.len() > 0
    &&& forall|i: int| 0 <= i < s.children.len() ==> (#[trigger] s.children[i]).0 == "Item"@
}

/// A structure lifted into the generic tree.
pub open spec fn lifted(s: RbfView) -> ValueView
    decreases s, 1int,
{
    let fields = lifted_members(s.attributes) + lifted_members(s.children);
    if is_list(s) {
        ValueView::Array(
            ArrayView {
                item_type: None,
                typed_items: false,
                items: Seq::new(fields.len(), |i: int| fields[i].1),
            },
        )
    } else {
        ValueView::Struct(StructView { type_hash: crate::hash::name_hash(s.name), fields })
    }
}

proof fn lemma_lifted_length(s: Seq<(Seq<char>, RbfValueView)>)
    ensures
        lifted_members(s).len() == s.len(),
    decreases s.len(),
{
    if s.len() > 0 {
        lemma_lifted_length(s.drop_last());
    }
}

fn lift_value(v: &RbfValue) -> (r: MetaValue)
    ensures
        r@ == lifted_value(rbf_value_view(*v)),
    decreases v, 2int,
{
    match v {
        RbfValue::Structure(s) => {
            assert(decreases_to!(v => v->Structure_0));
            rbf_to_value(s)
        },
        RbfValue::Bytes(b) => MetaValue::Bytes(crate::bytes::to_vec(b.as_slice())),
        RbfValue::Uint(n) => MetaValue::U32(*n),
        RbfValue::Bool(b) => MetaValue::Bool(*b),
        RbfValue::Float(bits) => MetaValue::F32(*bits),
        RbfValue::Float3(p) => MetaValue::Vec3(*p),
        RbfValue::Str(s) => MetaValue::Str(s.clone()),
    }
}

fn lift_members(members: &Vec<(String, RbfValue)>, fields: &mut Vec<(u32, MetaValue)>)
    ensures
        crate::value::fields_view(final(fields)@) == crate::value::fields_view(old(fields)@)
            + lifted_members(members_view(members@)),
    decreases members@, 0int,
{
    let ghost before = crate::value::fields_view(fields@);
    let ghost views = members_view(members@);
    let mut i: usize = 0;
    assert(crate::value::fields_view(fields@) =~= before + lifted_members(views.take(0)));
    while i < members.len()
        invariant
            i <= members@.len(),
            before == crate::value::fields_view(old(fields)@),
            views == members_view(members@),
            crate::value::fields_view(fields@) == before + lifted_members(views.take(i as int)),
        decreases members@.len() - i,
    {
        proof {
            assert(decreases_to!(members@ => members@[i as int]));
            assert(decreases_to!(members@[i as int] => members@[i as int].1));
        }
        let ghost had = crate::value::fields_view(fields@);
        let hash = rage_joaat(members[i].0.as_str());
        let value = lift_value(&members[i].1);
        let ghost now = (hash, value@);
        fields.push((hash, value));
        proof {
            assert(crate::value::fields_view(fields@) =~= had.push(now));
            assert(views[i as int] == (
                members@[i as int].0@,
                rbf_value_view(members@[i as int].1),
            ));
            assert(views.take(i + 1).drop_last() =~= views.take(i as int));
            assert(views.take(i + 1).last() == views[i as int]);
            assert(crate::value::fields_view(fields@) =~= before + lifted_members(
                views.take(i + 1),
            ));
        }
        i += 1;
    }
    assert(views.take(views.len() as int) =~= views);
}

fn all_items(members: &Vec<(String, RbfValue)>) -> (r: bool)
    ensures
        r == (forall|i: int|
            0 <= i < members@.len() ==> (#[trigger] members_view(members@)[i]).0 == "Item"@),
{
    let ghost views = members_view(members@);
    let item = crate::text::chars_of("Item");
    let mut i: usize = 0;
    while i < members.len()
        invariant
            i <= members@.len(),
            item@ == "Item"@,
            views == members_view(members@),
            forall|k: int| 0 <= k < i ==> (#[trigger] views[k]).0 == "Item"@,
        decreases members@.len() - i,
    {
        let name = crate::text::chars_of(members[i].0.as_str());
        assert(views[i as int].0 == members@[i as int].0@);
        if !crate::chars::same_chars(name.as_slice(), item.as_slice()) {
            return false;
        }
        i += 1;
    }
    true
}

/// Lifts an RBF tree into the generic one: structures keep their names
/// (hashed), attributes and children become members in order. A structure
/// whose children are all `Item`s is a list.
pub fn rbf_to_value(s: &RbfStructure) -> (r: MetaValue)
    ensures
        r@ == lifted(s@),
    decreases s, 1int,
{
    let mut fields: Vec<(u32, MetaValue)> = Vec::new();
    proof {
        assert(decreases_to!(s => s.attributes));
        assert(decreases_to!(s.attributes => s.attributes@));
        assert(decreases_to!(s => s.children));
        assert(decreases_to!(s.children => s.children@));
        assert(s@.attributes =~= members_view(s.attributes@));
        assert(s@.children =~= members_view(s.children@));
        assert(crate::value::fields_view(fields@) =~= Seq::<(u32, ValueView)>::empty());
        lemma_lifted_length(s@.attributes);
        lemma_lifted_length(s@.children);
    }
    lift_members(&s.attributes, &mut fields);
    lift_members(&s.children, &mut fields);
    let ghost views = crate::value::fields_view(fields@);
    assert(views =~= lifted_members(s@.attributes) + lifted_members(s@.children));
    // A list is a structure whose children are all `Item`s.
    if s.attributes.len() == 0 && s.children.len() > 0 && all_items(&s.children) {
        let items = crate::xml::without_names(fields);
        let r = MetaValue::Array(MetaArray { item_type: None, typed_items: false, items });
        assert(r@ == ValueView::Array((r->Array_0)@));
        assert((r->Array_0)@.items =~= Seq::new(views.len(), |i: int| views[i].1));
        return r;
    }
    let type_hash = rage_joaat(s.name.as_str());
    let r = MetaValue::Struct(MetaStruct { type_hash, fields });
    assert(r@ == ValueView::Struct((r->Struct_0)@));
    assert((r->Struct_0)@.fields =~= views);
    r
}

} // verus!
