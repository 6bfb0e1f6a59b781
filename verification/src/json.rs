//! JSON for a [`MetaValue`] tree: structures become objects with a `$type`
//! member, arrays become arrays, vectors become `[x, y, z]`, hashes and
//! enum members become their names (or `hash_XXXXXXXX`), flags become
//! `{"value": bits, "flags": [names]}` and raw bytes a hex string.

use vstd::prelude::*;
use vstd::slice::*;
use vstd::string::*;

use crate::chars::same_chars;
use crate::coerce::hash_of_str;
use crate::names::NameTable;
use crate::text::{chars_of, push_hex};
use crate::value::{ArrayView, MetaArray, MetaStruct, MetaValue, StructView, ValueView};

verus! {

broadcast use vstd::slice::group_slice_axioms;

/// A JSON value. The members of an object keep the order in which they were
/// added; no name occurs twice in an object that [`to_json`] makes.
#[derive(Debug, PartialEq, Eq)]
pub enum JsonNode {
    Null,
    Bool(bool),
    Int(i64),
    Uint(u64),
    /// A number that is no integer: the single nearest to it, by its bits.
    Float(u32),
    Str(String),
    Array(Vec<JsonNode>),
    Object(Vec<(String, JsonNode)>),
}

/// The model of a [`JsonNode`].
#[verifier::ext_equal]
pub enum JsonView {
    Null,
    Bool(bool),
    Int(i64),
    Uint(u64),
    Float(u32),
    Str(Seq<char>),
    Array(Seq<JsonView>),
    Object(Seq<(Seq<char>, JsonView)>),
}

/// The model of a node.
pub open spec fn json_view(v: JsonNode) -> JsonView
    decreases v,
{
    match v {
        JsonNode::Null => JsonView::Null,
        JsonNode::Bool(b) => JsonView::Bool(b),
        JsonNode::Int(n) => JsonView::Int(n),
        JsonNode::Uint(n) => JsonView::Uint(n),
        JsonNode::Float(bits) => JsonView::Float(bits),
        JsonNode::Str(s) => JsonView::Str(s@),
        JsonNode::Array(items) => JsonView::Array(
            Seq::new(
                items@.len(),
                |i: int|
                    if 0 <= i < items@.len() {
                        json_view(items@[i])
                    } else {
                        arbitrary()
                    },
            ),
        ),
        JsonNode::Object(members) => JsonView::Object(
            Seq::new(
                members@.len(),
                |i: int|
                    if 0 <= i < members@.len() {
                        (members@[i].0@, json_view(members@[i].1))
                    } else {
                        arbitrary()
                    },
            ),
        ),
    }
}

impl View for JsonNode {
    type V = JsonView;

    open spec fn view(&self) -> JsonView {
        json_view(*self)
    }
}

/// The models of a list of nodes.
pub open spec fn nodes_view(s: Seq<JsonNode>) -> Seq<JsonView> {
    Seq::new(s.len(), |i: int| json_view(s[i]))
}

/// The models of a list of members.
pub open spec fn members_view(s: Seq<(String, JsonNode)>) -> Seq<(Seq<char>, JsonView)> {
    Seq::new(s.len(), |i: int| (s[i].0@, json_view(s[i].1)))
}

/// Where the first member of that name stands, from `i` on; past the end
/// where there is none.
pub open spec fn key_from(obj: Seq<(Seq<char>, JsonView)>, key: Seq<char>, i: int) -> int
    decreases obj.len() - i,
{
    if i >= obj.len() {
        obj.len() as int
    } else if obj[i].0 == key {
        i
    } else {
        key_from(obj, key, i + 1)
    }
}

/// Where the member of that name stands.
pub open spec fn key_of(obj: Seq<(Seq<char>, JsonView)>, key: Seq<char>) -> int {
    key_from(obj, key, 0)
}

/// Whether there is a member of that name.
pub open spec fn has_key(obj: Seq<(Seq<char>, JsonView)>, key: Seq<char>) -> bool {
    0 <= key_of(obj, key) < obj.len()
}

/// An object with a member: in place of the one of that name, or at the end.
pub open spec fn with_member(
    obj: Seq<(Seq<char>, JsonView)>,
    key: Seq<char>,
    v: JsonView,
) -> Seq<(Seq<char>, JsonView)> {
    if has_key(obj, key) {
        obj.update(key_of(obj, key), (key, v))
    } else {
        obj.push((key, v))
    }
}

// ─── from the tree ───────────────────────────────────────────────────────────

/// Two hexadecimal digits for each of the first `n` bytes.
pub open spec fn hex_text(b: Seq<u8>, n: nat) -> Seq<char>
    decreases n,
{
    if n == 0 {
        Seq::empty()
    } else {
        hex_text(b, (n - 1) as nat) + crate::text::hex(b[n - 1] as nat, 2)
    }
}

/// The names of some hashes.
pub open spec fn name_nodes(set: Seq<u32>, names: Map<u32, Seq<char>>) -> Seq<JsonView> {
    Seq::new(set.len(), |i: int| JsonView::Str(crate::names::named(names, set[i])))
}

/// The elements of an array.
pub open spec fn json_items(items: Seq<ValueView>, names: Map<u32, Seq<char>>) -> Seq<JsonView>
    decreases items, 0int,
{
    if items.len() == 0 {
        Seq::empty()
    } else {
        proof {
            assert(decreases_to!(items => items.last()));
        }
        json_items(items.drop_last(), names).push(json_of(items.last(), names))
    }
}

/// The pairs of a map, each an object with the members `key` and `value`.
pub open spec fn json_pairs(
    pairs: Seq<(ValueView, ValueView)>,
    names: Map<u32, Seq<char>>,
) -> Seq<JsonView>
    decreases pairs, 0int,
{
    if pairs.len() == 0 {
        Seq::empty()
    } else {
        proof {
            assert(decreases_to!(pairs => pairs.last()));
            assert(decreases_to!(pairs.last() => pairs.last().0));
            assert(decreases_to!(pairs.last() => pairs.last().1));
        }
        json_pairs(pairs.drop_last(), names).push(
            JsonView::Object(
                seq![
                    ("key"@, json_of(pairs.last().0, names)),
                    ("value"@, json_of(pairs.last().1, names)),
                ],
            ),
        )
    }
}

/// The members of a structure after its `$type`. A later member of the same
/// name takes the place of an earlier one.
pub open spec fn json_fields(
    kind: Seq<char>,
    fields: Seq<(u32, ValueView)>,
    names: Map<u32, Seq<char>>,
) -> Seq<(Seq<char>, JsonView)>
    decreases fields, 0int,
{
    if fields.len() == 0 {
        seq![("$type"@, JsonView::Str(kind))]
    } else {
        proof {
            assert(decreases_to!(fields => fields.last()));
            assert(decreases_to!(fields.last() => fields.last().1));
        }
        with_member(
            json_fields(kind, fields.drop_last(), names),
            crate::names::named(names, fields.last().0),
            json_of(fields.last().1, names),
        )
    }
}

/// The tree as JSON.
pub open spec fn json_of(v: ValueView, names: Map<u32, Seq<char>>) -> JsonView
    decreases v, 1int,
{
    match v {
        ValueView::Null => JsonView::Null,
        ValueView::Bool(b) => JsonView::Bool(b),
        ValueView::I8(n) => JsonView::Int(n as i64),
        ValueView::U8(n) => JsonView::Int(n as i64),
        ValueView::I16(n) => JsonView::Int(n as i64),
        ValueView::U16(n) => JsonView::Int(n as i64),
        ValueView::I32(n) => JsonView::Int(n as i64),
        ValueView::U32(n) => JsonView::Int(n as i64),
        ValueView::I64(n) => JsonView::Int(n),
        ValueView::U64(n) => JsonView::Uint(n),
        ValueView::F32(bits) => JsonView::Float(bits),
        ValueView::Vec2(p) => JsonView::Array(seq![JsonView::Float(p.x), JsonView::Float(p.y)]),
        ValueView::Vec3(p) => JsonView::Array(
            seq![JsonView::Float(p.x), JsonView::Float(p.y), JsonView::Float(p.z)],
        ),
        ValueView::Vec4(p) => JsonView::Array(
            seq![
                JsonView::Float(p.x),
                JsonView::Float(p.y),
                JsonView::Float(p.z),
                JsonView::Float(p.w),
            ],
        ),
        ValueView::Hash(h) => if h == 0 {
            JsonView::Null
        } else {
            JsonView::Str(crate::names::named(names, h))
        },
        ValueView::Str(s) => JsonView::Str(s),
        ValueView::Enum { enum_hash: _, value, name } => match name {
            Some(m) => JsonView::Str(crate::names::named(names, m)),
            None => JsonView::Int(value as i64),
        },
        ValueView::Flags { enum_hash: _, bits, names: set } => JsonView::Object(
            seq![
                ("value"@, JsonView::Int(bits as i64)),
                ("flags"@, JsonView::Array(name_nodes(set, names))),
            ],
        ),
        ValueView::Bytes(b) => JsonView::Str(hex_text(b, b.len())),
        ValueView::Array(a) => JsonView::Array(json_items(a.items, names)),
        ValueView::Pairs(pairs) => JsonView::Array(json_pairs(pairs, names)),
        ValueView::Struct(s) => JsonView::Object(
            json_fields(crate::names::named(names, s.type_hash), s.fields, names),
        ),
    }
}

fn find_key(members: &Vec<(String, JsonNode)>, key: &str) -> (r: Option<usize>)
    ensures
        match r {
            Some(i) => i < members@.len() && key_of(members_view(members@), key@) == i
                && members@[i as int].0@ == key@,
            None => !has_key(members_view(members@), key@),
        },
{
    let ghost obj = members_view(members@);
    let want = chars_of(key);
    let mut i: usize = 0;
    while i < members.len()
        invariant
            i <= members@.len(),
            obj == members_view(members@),
            want@ == key@,
            key_of(obj, key@) == key_from(obj, key@, i as int),
        decreases members@.len() - i,
    {
        let got = chars_of(members[i].0.as_str());
        assert(obj[i as int].0 == members@[i as int].0@);
        if same_chars(got.as_slice(), want.as_slice()) {
            return Some(i);
        }
        i += 1;
    }
    None
}

fn insert_member(members: &mut Vec<(String, JsonNode)>, key: String, value: JsonNode)
    ensures
        members_view(final(members)@) == with_member(
            members_view(old(members)@),
            key@,
            value@,
        ),
{
    let ghost obj = members_view(members@);
    let ghost now = (key@, value@);
    match find_key(members, key.as_str()) {
        Some(i) => {
            members.set(i, (key, value));
            assert(members_view(members@) =~= obj.update(i as int, now));
        },
        None => {
            members.push((key, value));
            assert(members_view(members@) =~= obj.push(now));
        },
    }
}

fn float_nodes(v: &[u32]) -> (r: JsonNode)
    ensures
        r@ == JsonView::Array(Seq::new(v@.len(), |i: int| JsonView::Float(v@[i]))),
{
    let mut out: Vec<JsonNode> = Vec::new();
    let mut i: usize = 0;
    while i < v.len()
        invariant
            i <= v@.len(),
            out@.len() == i,
            forall|k: int| 0 <= k < i ==> (#[trigger] out@[k])@ == JsonView::Float(v@[k]),
        decreases v@.len() - i,
    {
        out.push(JsonNode::Float(v[i]));
        i += 1;
    }
    let r = JsonNode::Array(out);
    assert(r@->Array_0 =~= Seq::new(v@.len(), |i: int| JsonView::Float(v@[i])));
    r
}

fn flags_node(bits: u32, set: &Vec<u32>, names: &NameTable) -> (r: JsonNode)
    ensures
        r@ == JsonView::Object(
            seq![
                ("value"@, JsonView::Int(bits as i64)),
                ("flags"@, JsonView::Array(name_nodes(set@, names@))),
            ],
        ),
{
    let mut flags: Vec<JsonNode> = Vec::new();
    let mut i: usize = 0;
    while i < set.len()
        invariant
            i <= set@.len(),
            flags@.len() == i,
            forall|k: int|
                0 <= k < i ==> (#[trigger] flags@[k])@ == JsonView::Str(
                    crate::names::named(names@, set@[k]),
                ),
        decreases set@.len() - i,
    {
        flags.push(JsonNode::Str(names.resolve(set[i])));
        i += 1;
    }
    let list = JsonNode::Array(flags);
    assert(list@->Array_0 =~= name_nodes(set@, names@));
    let mut members: Vec<(String, JsonNode)> = Vec::new();
    let value = JsonNode::Int(bits as i64);
    assert(value@ == JsonView::Int(bits as i64));
    assert(list@ == JsonView::Array(name_nodes(set@, names@)));
    members.push(("value".to_string(), value));
    members.push(("flags".to_string(), list));
    let r = JsonNode::Object(members);
    assert(r@->Object_0 =~= seq![
        ("value"@, JsonView::Int(bits as i64)),
        ("flags"@, JsonView::Array(name_nodes(set@, names@))),
    ]);
    r
}

fn bytes_node(b: &Vec<u8>) -> (r: JsonNode)
    ensures
        r@ == JsonView::Str(hex_text(b@, b@.len())),
{
    let mut out = String::new();
    assert(out@ =~= hex_text(b@, 0));
    let mut i: usize = 0;
    while i < b.len()
        invariant
            i <= b@.len(),
            out@ == hex_text(b@, i as nat),
        decreases b@.len() - i,
    {
        push_hex(&mut out, b[i] as u64, 2);
        i += 1;
    }
    JsonNode::Str(out)
}

fn items_node(items: &Vec<MetaValue>, names: &NameTable) -> (r: Vec<JsonNode>)
    ensures
        nodes_view(r@) == json_items(crate::value::values_view(items@), names@),
    decreases items@, 0int,
{
    let ghost views = crate::value::values_view(items@);
    let mut out: Vec<JsonNode> = Vec::new();
    let mut i: usize = 0;
    assert(nodes_view(out@) =~= json_items(views.take(0), names@));
    while i < items.len()
        invariant
            i <= items@.len(),
            views == crate::value::values_view(items@),
            nodes_view(out@) == json_items(views.take(i as int), names@),
        decreases items@.len() - i,
    {
        assert(decreases_to!(items@ => items@[i as int]));
        let ghost had = nodes_view(out@);
        let node = to_json(&items[i], names);
        let ghost now = node@;
        out.push(node);
        proof {
            assert(nodes_view(out@) =~= had.push(now));
            assert(views[i as int] == items@[i as int]@);
            assert(views.take(i + 1).drop_last() =~= views.take(i as int));
            assert(views.take(i + 1).last() == views[i as int]);
        }
        i += 1;
    }
    assert(views.take(views.len() as int) =~= views);
    out
}

fn pairs_node(pairs: &Vec<(MetaValue, MetaValue)>, names: &NameTable) -> (r: Vec<JsonNode>)
    ensures
        nodes_view(r@) == json_pairs(crate::value::pairs_view(pairs@), names@),
    decreases pairs@, 0int,
{
    let ghost views = crate::value::pairs_view(pairs@);
    let mut out: Vec<JsonNode> = Vec::new();
    let mut i: usize = 0;
    assert(nodes_view(out@) =~= json_pairs(views.take(0), names@));
    while i < pairs.len()
        invariant
            i <= pairs@.len(),
            views == crate::value::pairs_view(pairs@),
            nodes_view(out@) == json_pairs(views.take(i as int), names@),
        decreases pairs@.len() - i,
    {
        proof {
            assert(decreases_to!(pairs@ => pairs@[i as int]));
            assert(decreases_to!(pairs@[i as int] => pairs@[i as int].0));
            assert(decreases_to!(pairs@[i as int] => pairs@[i as int].1));
        }
        let ghost had = nodes_view(out@);
        let mut members: Vec<(String, JsonNode)> = Vec::new();
        let key = to_json(&pairs[i].0, names);
        let value = to_json(&pairs[i].1, names);
        let ghost now = seq![("key"@, key@), ("value"@, value@)];
        members.push(("key".to_string(), key));
        members.push(("value".to_string(), value));
        let node = JsonNode::Object(members);
        assert(node@->Object_0 =~= now);
        out.push(node);
        proof {
            assert(nodes_view(out@) =~= had.push(JsonView::Object(now)));
            assert(views[i as int] == (pairs@[i as int].0@, pairs@[i as int].1@));
            assert(views.take(i + 1).drop_last() =~= views.take(i as int));
            assert(views.take(i + 1).last() == views[i as int]);
        }
        i += 1;
    }
    assert(views.take(views.len() as int) =~= views);
    out
}

fn fields_node(kind: String, fields: &Vec<(u32, MetaValue)>, names: &NameTable) -> (r: Vec<
    (String, JsonNode),
>)
    ensures
        members_view(r@) == json_fields(kind@, crate::value::fields_view(fields@), names@),
    decreases fields@, 0int,
{
    let ghost views = crate::value::fields_view(fields@);
    let ghost title = kind@;
    let mut out: Vec<(String, JsonNode)> = Vec::new();
    out.push(("$type".to_string(), JsonNode::Str(kind)));
    let mut i: usize = 0;
    assert(members_view(out@) =~= json_fields(title, views.take(0), names@));
    while i < fields.len()
        invariant
            i <= fields@.len(),
            title == kind@,
            views == crate::value::fields_view(fields@),
            members_view(out@) == json_fields(title, views.take(i as int), names@),
        decreases fields@.len() - i,
    {
        proof {
            assert(decreases_to!(fields@ => fields@[i as int]));
            assert(decreases_to!(fields@[i as int] => fields@[i as int].1));
        }
        let name = names.resolve(fields[i].0);
        let node = to_json(&fields[i].1, names);
        insert_member(&mut out, name, node);
        proof {
            assert(views[i as int] == (fields@[i as int].0, fields@[i as int].1@));
            assert(views.take(i + 1).drop_last() =~= views.take(i as int));
            assert(views.take(i + 1).last() == views[i as int]);
        }
        i += 1;
    }
    assert(views.take(views.len() as int) =~= views);
    out
}

/// Converts the tree into a JSON value.
pub fn to_json(value: &MetaValue, names: &NameTable) -> (r: JsonNode)
    ensures
        r@ == json_of(value@, names@),
    decreases value, 1int,
{
    match value {
        MetaValue::Null => JsonNode::Null,
        MetaValue::Bool(b) => JsonNode::Bool(*b),
        MetaValue::I8(v) => JsonNode::Int(*v as i64),
        MetaValue::U8(v) => JsonNode::Int(*v as i64),
        MetaValue::I16(v) => JsonNode::Int(*v as i64),
        MetaValue::U16(v) => JsonNode::Int(*v as i64),
        MetaValue::I32(v) => JsonNode::Int(*v as i64),
        MetaValue::U32(v) => JsonNode::Int(*v as i64),
        MetaValue::I64(v) => JsonNode::Int(*v),
        MetaValue::U64(v) => JsonNode::Uint(*v),
        MetaValue::F32(v) => JsonNode::Float(*v),
        MetaValue::Vec2(v) => {
            let c: [u32; 2] = [v.x, v.y];
            let r = float_nodes(&c);
            assert(r@->Array_0 =~= seq![JsonView::Float(v.x), JsonView::Float(v.y)]);
            r
        },
        MetaValue::Vec3(v) => {
            let c: [u32; 3] = [v.x, v.y, v.z];
            let r = float_nodes(&c);
            assert(r@->Array_0 =~= seq![
                JsonView::Float(v.x),
                JsonView::Float(v.y),
                JsonView::Float(v.z),
            ]);
            r
        },
        MetaValue::Vec4(v) => {
            let c: [u32; 4] = [v.x, v.y, v.z, v.w];
            let r = float_nodes(&c);
            assert(r@->Array_0 =~= seq![
                JsonView::Float(v.x),
                JsonView::Float(v.y),
                JsonView::Float(v.z),
                JsonView::Float(v.w),
            ]);
            r
        },
        MetaValue::Hash(h) => if *h == 0 {
            JsonNode::Null
        } else {
            JsonNode::Str(names.resolve(*h))
        },
        MetaValue::Str(s) => JsonNode::Str(s.clone()),
        MetaValue::Enum { value: number, name, .. } => match name {
            Some(m) => JsonNode::Str(names.resolve(*m)),
            None => JsonNode::Int(*number as i64),
        },
        MetaValue::Flags { bits, names: set, .. } => flags_node(*bits, set, names),
        MetaValue::Bytes(b) => bytes_node(b),
        MetaValue::Array(a) => {
            proof {
                assert(value@ == ValueView::Array(a@));
                assert(crate::value::values_view(a.items@) =~= a@.items);
                assert(decreases_to!(value => value->Array_0));
                assert(decreases_to!(a => a.items));
                assert(decreases_to!(a.items => a.items@));
            }
            let r = JsonNode::Array(items_node(&a.items, names));
            assert(r@->Array_0 =~= json_items(a@.items, names@));
            r
        },
        MetaValue::Pairs(pairs) => {
            proof {
                assert(crate::value::pairs_view(pairs@) =~= value@->Pairs_0);
                assert(decreases_to!(value => value->Pairs_0));
                assert(decreases_to!(pairs => pairs@));
            }
            let r = JsonNode::Array(pairs_node(pairs, names));
            assert(r@->Array_0 =~= json_pairs(value@->Pairs_0, names@));
            r
        },
        MetaValue::Struct(s) => {
            proof {
                assert(value@ == ValueView::Struct(s@));
                assert(crate::value::fields_view(s.fields@) =~= s@.fields);
                assert(decreases_to!(value => value->Struct_0));
                assert(decreases_to!(s => s.fields));
                assert(decreases_to!(s.fields => s.fields@));
            }
            let kind = names.resolve(s.type_hash);
            let r = JsonNode::Object(fields_node(kind, &s.fields, names));
            assert(r@->Object_0 =~= json_fields(
                crate::names::named(names@, s.type_hash),
                s@.fields,
                names@,
            ));
            r
        },
    }
}

// ─── to the tree ─────────────────────────────────────────────────────────────

/// An integer as a value.
pub open spec fn integer_value(n: i64) -> ValueView {
    if i32::MIN <= n <= i32::MAX {
        ValueView::I32(n as i32)
    } else {
        ValueView::I64(n)
    }
}

/// Whether a node is an object of a `key` and a `value`.
pub open spec fn is_pair(v: JsonView) -> bool {
    match v {
        JsonView::Object(obj) => obj.len() == 2 && has_key(obj, "key"@) && has_key(obj, "value"@),
        _ => false,
    }
}

/// Whether a node is an object with a `$type`.
pub open spec fn is_typed(v: JsonView) -> bool {
    match v {
        JsonView::Object(obj) => has_key(obj, "$type"@),
        _ => false,
    }
}

/// The bits of a flag set: 0 for what is no `u32`.
pub open spec fn bits_of(v: JsonView) -> u32 {
    match v {
        JsonView::Int(n) => if 0 <= n <= u32::MAX {
            n as u32
        } else {
            0
        },
        JsonView::Uint(n) => if n <= u32::MAX {
            n as u32
        } else {
            0
        },
        _ => 0,
    }
}

/// The value of the member of that name.
pub open spec fn member_value(obj: Seq<(Seq<char>, JsonView)>, key: Seq<char>) -> ValueView
    decreases obj, 0int,
{
    let i = key_of(obj, key);
    if 0 <= i < obj.len() {
        proof {
            assert(decreases_to!(obj => obj[i]));
            assert(decreases_to!(obj[i] => obj[i].1));
        }
        tree_of(obj[i].1)
    } else {
        ValueView::Null
    }
}

/// The values of the pairs in a list of pairs.
pub open spec fn pair_values(items: Seq<JsonView>) -> Seq<(ValueView, ValueView)>
    decreases items, 0int,
{
    if items.len() == 0 {
        Seq::empty()
    } else {
        let last = items.last();
        proof {
            assert(decreases_to!(items => items.last()));
            if let JsonView::Object(obj) = last {
                assert(decreases_to!(last => last->Object_0));
            }
        }
        pair_values(items.drop_last()).push(
            (match last {
                JsonView::Object(obj) => (
                    member_value(obj, "key"@),
                    member_value(obj, "value"@),
                ),
                _ => (ValueView::Null, ValueView::Null),
            }),
        )
    }
}

/// The values of a list.
pub open spec fn item_values(items: Seq<JsonView>) -> Seq<ValueView>
    decreases items, 0int,
{
    if items.len() == 0 {
        Seq::empty()
    } else {
        proof {
            assert(decreases_to!(items => items.last()));
        }
        item_values(items.drop_last()).push(tree_of(items.last()))
    }
}

/// The values of the members of an object, under the hashes of their names;
/// without its `$type` where `typed`.
pub open spec fn field_values(obj: Seq<(Seq<char>, JsonView)>, typed: bool) -> Seq<(u32, ValueView)>
    decreases obj, 0int,
{
    if obj.len() == 0 {
        Seq::empty()
    } else {
        proof {
            assert(decreases_to!(obj => obj.last()));
            assert(decreases_to!(obj.last() => obj.last().1));
        }
        let before = field_values(obj.drop_last(), typed);
        if typed && obj.last().0 == "$type"@ {
            before
        } else {
            before.push((crate::coerce::text_hash(obj.last().0), tree_of(obj.last().1)))
        }
    }
}

/// The type that an object names.
pub open spec fn type_of(obj: Seq<(Seq<char>, JsonView)>) -> Option<Seq<char>> {
    if has_key(obj, "$type"@) {
        match obj[key_of(obj, "$type"@)].1 {
            JsonView::Str(s) => Some(s),
            _ => None,
        }
    } else {
        None
    }
}

/// The tree that JSON stands for, without a schema.
pub open spec fn tree_of(v: JsonView) -> ValueView
    decreases v, 1int,
{
    match v {
        JsonView::Null => ValueView::Null,
        JsonView::Bool(b) => ValueView::Bool(b),
        JsonView::Int(n) => integer_value(n),
        JsonView::Uint(n) => if n <= i64::MAX {
            integer_value(n as i64)
        } else {
            ValueView::U64(n)
        },
        JsonView::Float(bits) => ValueView::F32(bits),
        JsonView::Str(s) => ValueView::Str(s),
        JsonView::Array(items) => if items.len() > 0 && (forall|i: int|
            0 <= i < items.len() ==> is_pair(#[trigger] items[i])) {
            ValueView::Pairs(pair_values(items))
        } else {
            ValueView::Array(
                ArrayView {
                    item_type: None,
                    typed_items: exists|i: int|
                        0 <= i < items.len() && is_typed(#[trigger] items[i]),
                    items: item_values(items),
                },
            )
        },
        JsonView::Object(obj) => match type_of(obj) {
            Some(kind) => ValueView::Struct(
                StructView {
                    type_hash: crate::coerce::text_hash(kind),
                    fields: field_values(obj, true),
                },
            ),
            None => if obj.len() == 2 && has_key(obj, "value"@) && has_key(obj, "flags"@) {
                ValueView::Flags {
                    enum_hash: 0,
                    bits: bits_of(obj[key_of(obj, "value"@)].1),
                    names: Seq::empty(),
                }
            } else {
                ValueView::Struct(StructView { type_hash: 0, fields: field_values(obj, false) })
            },
        },
    }
}

fn integer(n: i64) -> (r: MetaValue)
    ensures
        r@ == integer_value(n),
{
    if -0x8000_0000 <= n && n <= 0x7FFF_FFFF {
        MetaValue::I32(n as i32)
    } else {
        MetaValue::I64(n)
    }
}

fn node_is_pair(v: &JsonNode) -> (r: bool)
    ensures
        r == is_pair(v@),
{
    match v {
        JsonNode::Object(obj) => {
            assert(v@->Object_0 =~= members_view(obj@));
            obj.len() == 2 && find_key(obj, "key").is_some() && find_key(obj, "value").is_some()
        },
        _ => false,
    }
}

fn node_is_typed(v: &JsonNode) -> (r: bool)
    ensures
        r == is_typed(v@),
{
    match v {
        JsonNode::Object(obj) => {
            assert(v@->Object_0 =~= members_view(obj@));
            find_key(obj, "$type").is_some()
        },
        _ => false,
    }
}

fn all_pairs(items: &Vec<JsonNode>) -> (r: bool)
    ensures
        r == (forall|i: int|
            0 <= i < items@.len() ==> is_pair(#[trigger] nodes_view(items@)[i])),
{
    let ghost views = nodes_view(items@);
    let mut i: usize = 0;
    while i < items.len()
        invariant
            i <= items@.len(),
            views == nodes_view(items@),
            forall|k: int| 0 <= k < i ==> is_pair(#[trigger] views[k]),
        decreases items@.len() - i,
    {
        assert(views[i as int] == items@[i as int]@);
        if !node_is_pair(&items[i]) {
            return false;
        }
        i += 1;
    }
    true
}

fn any_typed(items: &Vec<JsonNode>) -> (r: bool)
    ensures
        r == (exists|i: int| 0 <= i < items@.len() && is_typed(#[trigger] nodes_view(items@)[i])),
{
    let ghost views = nodes_view(items@);
    let mut i: usize = 0;
    while i < items.len()
        invariant
            i <= items@.len(),
            views == nodes_view(items@),
            forall|k: int| 0 <= k < i ==> !is_typed(#[trigger] views[k]),
        decreases items@.len() - i,
    {
        assert(views[i as int] == items@[i as int]@);
        if node_is_typed(&items[i]) {
            return true;
        }
        i += 1;
    }
    false
}

fn named_value(obj: &Vec<(String, JsonNode)>, key: &str) -> (r: MetaValue)
    ensures
        r@ == member_value(members_view(obj@), key@),
    decreases obj@, 0int,
{
    match find_key(obj, key) {
        Some(i) => {
            proof {
                assert(decreases_to!(obj@ => obj@[i as int]));
                assert(decreases_to!(obj@[i as int] => obj@[i as int].1));
            }
            value_of(&obj[i].1)
        },
        None => MetaValue::Null,
    }
}

fn read_pair(v: &JsonNode) -> (r: (MetaValue, MetaValue))
    ensures
        match v@ {
            JsonView::Object(obj) => (r.0@, r.1@) == (
                member_value(obj, "key"@),
                member_value(obj, "value"@),
            ),
            _ => (r.0@, r.1@) == (ValueView::Null, ValueView::Null),
        },
    decreases v, 2int,
{
    match v {
        JsonNode::Object(obj) => {
            proof {
                assert(v@->Object_0 =~= members_view(obj@));
                assert(decreases_to!(v => v->Object_0));
                assert(decreases_to!(obj => obj@));
            }
            (named_value(obj, "key"), named_value(obj, "value"))
        },
        _ => (MetaValue::Null, MetaValue::Null),
    }
}

fn read_pairs(items: &Vec<JsonNode>) -> (r: Vec<(MetaValue, MetaValue)>)
    ensures
        crate::value::pairs_view(r@) == pair_values(nodes_view(items@)),
    decreases items@, 3int,
{
    let ghost views = nodes_view(items@);
    let mut out: Vec<(MetaValue, MetaValue)> = Vec::new();
    let mut i: usize = 0;
    assert(crate::value::pairs_view(out@) =~= pair_values(views.take(0)));
    while i < items.len()
        invariant
            i <= items@.len(),
            views == nodes_view(items@),
            crate::value::pairs_view(out@) == pair_values(views.take(i as int)),
        decreases items@.len() - i,
    {
        assert(decreases_to!(items@ => items@[i as int]));
        let ghost had = crate::value::pairs_view(out@);
        let pair = read_pair(&items[i]);
        let ghost now = (pair.0@, pair.1@);
        out.push(pair);
        proof {
            assert(crate::value::pairs_view(out@) =~= had.push(now));
            assert(views[i as int] == items@[i as int]@);
            assert(views.take(i + 1).drop_last() =~= views.take(i as int));
            assert(views.take(i + 1).last() == views[i as int]);
        }
        i += 1;
    }
    assert(views.take(views.len() as int) =~= views);
    out
}

fn read_items(items: &Vec<JsonNode>) -> (r: Vec<MetaValue>)
    ensures
        crate::value::values_view(r@) == item_values(nodes_view(items@)),
    decreases items@, 0int,
{
    let ghost views = nodes_view(items@);
    let mut out: Vec<MetaValue> = Vec::new();
    let mut i: usize = 0;
    assert(crate::value::values_view(out@) =~= item_values(views.take(0)));
    while i < items.len()
        invariant
            i <= items@.len(),
            views == nodes_view(items@),
            crate::value::values_view(out@) == item_values(views.take(i as int)),
        decreases items@.len() - i,
    {
        assert(decreases_to!(items@ => items@[i as int]));
        let ghost had = crate::value::values_view(out@);
        let item = value_of(&items[i]);
        let ghost now = item@;
        out.push(item);
        proof {
            assert(crate::value::values_view(out@) =~= had.push(now));
            assert(views[i as int] == items@[i as int]@);
            assert(views.take(i + 1).drop_last() =~= views.take(i as int));
            assert(views.take(i + 1).last() == views[i as int]);
        }
        i += 1;
    }
    assert(views.take(views.len() as int) =~= views);
    out
}

fn read_fields(obj: &Vec<(String, JsonNode)>, typed: bool) -> (r: Vec<(u32, MetaValue)>)
    ensures
        crate::value::fields_view(r@) == field_values(members_view(obj@), typed),
    decreases obj@, 0int,
{
    let ghost views = members_view(obj@);
    let dollar = chars_of("$type");
    let mut out: Vec<(u32, MetaValue)> = Vec::new();
    let mut i: usize = 0;
    assert(crate::value::fields_view(out@) =~= field_values(views.take(0), typed));
    while i < obj.len()
        invariant
            i <= obj@.len(),
            dollar@ == "$type"@,
            views == members_view(obj@),
            crate::value::fields_view(out@) == field_values(views.take(i as int), typed),
        decreases obj@.len() - i,
    {
        proof {
            assert(decreases_to!(obj@ => obj@[i as int]));
            assert(decreases_to!(obj@[i as int] => obj@[i as int].1));
            assert(views[i as int] == (obj@[i as int].0@, obj@[i as int].1@));
            assert(views.take(i + 1).drop_last() =~= views.take(i as int));
            assert(views.take(i + 1).last() == views[i as int]);
        }
        let name = chars_of(obj[i].0.as_str());
        if !(typed && same_chars(name.as_slice(), dollar.as_slice())) {
            let ghost had = crate::value::fields_view(out@);
            let hash = hash_of_str(obj[i].0.as_str());
            let value = value_of(&obj[i].1);
            let ghost now = (hash, value@);
            out.push((hash, value));
            assert(crate::value::fields_view(out@) =~= had.push(now));
        }
        i += 1;
    }
    assert(views.take(views.len() as int) =~= views);
    out
}

fn bits_in(v: &JsonNode) -> (r: u32)
    ensures
        r == bits_of(v@),
{
    match v {
        JsonNode::Int(n) => if 0 <= *n && *n <= 0xFFFF_FFFF {
            *n as u32
        } else {
            0
        },
        JsonNode::Uint(n) => if *n <= 0xFFFF_FFFF {
            *n as u32
        } else {
            0
        },
        _ => 0,
    }
}

/// The type that an object names, hashed.
fn named_type(obj: &Vec<(String, JsonNode)>) -> (r: Option<u32>)
    ensures
        r == (match type_of(members_view(obj@)) {
            Some(kind) => Some(crate::coerce::text_hash(kind)),
            None => None,
        }),
{
    match find_key(obj, "$type") {
        Some(i) => {
            assert(members_view(obj@)[i as int].1 == obj@[i as int].1@);
            match &obj[i].1 {
                JsonNode::Str(s) => Some(hash_of_str(s.as_str())),
                _ => None,
            }
        },
        None => None,
    }
}

/// The bits of an object that is a flag set.
fn flag_bits(obj: &Vec<(String, JsonNode)>) -> (r: Option<u32>)
    ensures
        r == (if obj@.len() == 2 && has_key(members_view(obj@), "value"@) && has_key(
            members_view(obj@),
            "flags"@,
        ) {
            Some(bits_of(members_view(obj@)[key_of(members_view(obj@), "value"@)].1))
        } else {
            None
        }),
{
    if obj.len() != 2 || find_key(obj, "flags").is_none() {
        return None;
    }
    match find_key(obj, "value") {
        Some(i) => {
            assert(members_view(obj@)[i as int].1 == obj@[i as int].1@);
            Some(bits_in(&obj[i].1))
        },
        None => None,
    }
}

/// The inverse of [`to_json`], without a schema: objects with a `$type`
/// become structures (names or `hash_XXXXXXXX` hashed), other objects
/// with `value`/`flags` become flag sets, arrays of `{key, value}` objects
/// become maps, numbers become integers or floats, strings stay strings
/// (a writer hashes them where a name is expected).
pub fn value_of(v: &JsonNode) -> (r: MetaValue)
    ensures
        r@ == tree_of(v@),
    decreases v, 1int,
{
    match v {
        JsonNode::Null => MetaValue::Null,
        JsonNode::Bool(b) => MetaValue::Bool(*b),
        JsonNode::Int(n) => integer(*n),
        JsonNode::Uint(n) => if *n <= 0x7FFF_FFFF_FFFF_FFFF {
            integer(*n as i64)
        } else {
            MetaValue::U64(*n)
        },
        JsonNode::Float(bits) => MetaValue::F32(*bits),
        JsonNode::Str(s) => MetaValue::Str(s.clone()),
        JsonNode::Array(items) => {
            proof {
                assert(v@->Array_0 =~= nodes_view(items@));
                assert(decreases_to!(v => v->Array_0));
                assert(decreases_to!(items => items@));
            }
            if items.len() > 0 && all_pairs(items) {
                let r = MetaValue::Pairs(read_pairs(items));
                assert(r@->Pairs_0 =~= pair_values(nodes_view(items@)));
                return r;
            }
            let typed_items = any_typed(items);
            let r = MetaValue::Array(
                MetaArray { item_type: None, typed_items, items: read_items(items) },
            );
            assert(r@ == ValueView::Array((r->Array_0)@));
            assert((r->Array_0)@.items =~= item_values(nodes_view(items@)));
            r
        },
        JsonNode::Object(obj) => {
            proof {
                assert(v@->Object_0 =~= members_view(obj@));
                assert(decreases_to!(v => v->Object_0));
                assert(decreases_to!(obj => obj@));
            }
            if let Some(type_hash) = named_type(obj) {
                let r = MetaValue::Struct(MetaStruct { type_hash, fields: read_fields(obj, true) });
                assert(r@ == ValueView::Struct((r->Struct_0)@));
                assert((r->Struct_0)@.fields =~= field_values(members_view(obj@), true));
                return r;
            }
            if let Some(bits) = flag_bits(obj) {
                let r = MetaValue::Flags { enum_hash: 0, bits, names: Vec::new() };
                assert(r@ =~= tree_of(v@));
                return r;
            }
            // A structure whose type the member's schema will supply.
            let r = MetaValue::Struct(MetaStruct { type_hash: 0, fields: read_fields(obj, false) });
            assert(r@ == ValueView::Struct((r->Struct_0)@));
            assert((r->Struct_0)@.fields =~= field_values(members_view(obj@), false));
            r
        },
    }
}

// ─── laws ────────────────────────────────────────────────────────────────────

/// Nothing, booleans, `i32`s, floats and texts come back from JSON as they
/// were; so do `i64`s and `u64`s that a smaller type cannot hold.
pub proof fn law_scalars_read_back(v: ValueView, names: Map<u32, Seq<char>>)
    requires
        match v {
            ValueView::Null => true,
            ValueView::Bool(_) => true,
            ValueView::I32(_) => true,
            ValueView::F32(_) => true,
            ValueView::Str(_) => true,
            ValueView::I64(n) => !(i32::MIN <= n <= i32::MAX),
            ValueView::U64(n) => n > i64::MAX,
            _ => false,
        },
    ensures
        tree_of(json_of(v, names)) == v,
{
}

/// An array of values that come back comes back, unless every element would
/// be read as a pair.
pub proof fn law_arrays_read_back(items: Seq<ValueView>, names: Map<u32, Seq<char>>)
    requires
        forall|i: int|
            0 <= i < items.len() ==> tree_of(json_of(#[trigger] items[i], names)) == items[i],
    ensures
        item_values(json_items(items, names)) == items,
    decreases items.len(),
{
    if items.len() > 0 {
        let front = items.drop_last();
        assert forall|i: int| 0 <= i < front.len() implies tree_of(
            json_of(#[trigger] front[i], names),
        ) == front[i] by {
            assert(front[i] == items[i]);
        }
        law_arrays_read_back(front, names);
        let j = json_items(items, names);
        assert(j.drop_last() =~= json_items(front, names));
        assert(items.last() == items[items.len() - 1]);
        assert(item_values(j) =~= items);
    } else {
        assert(item_values(json_items(items, names)) =~= items);
    }
}

} // verus!
