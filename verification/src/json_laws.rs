//! What JSON keeps of a tree.

use vstd::prelude::*;

use crate::json::JsonView;
use crate::value::{ArrayView, StructView, ValueView};

verus! {

/// Whether the name that stands for a hash hashes to it.
pub open spec fn known(names: Map<u32, Seq<char>>, hash: u32) -> bool {
    crate::coerce::text_hash(crate::names::named(names, hash)) == hash
}

/// Whether the names of some members hash to them, differ from each other
/// and from `$type`.
pub open spec fn well_named(fields: Seq<(u32, ValueView)>, names: Map<u32, Seq<char>>) -> bool {
    &&& forall|i: int|
        0 <= i < fields.len() ==> known(names, (#[trigger] fields[i]).0) && crate::names::named(
            names,
            fields[i].0,
        ) != "$type"@
    &&& forall|i: int, j: int|
        0 <= i < j < fields.len() ==> crate::names::named(names, (#[trigger] fields[i]).0)
            != crate::names::named(names, (#[trigger] fields[j]).0)
}

/// Whether a tree is made of what JSON can tell apart without a schema:
/// integers of the narrowest kind that JSON reads them as, singles, texts,
/// lists that name no type, maps that are not empty, bit sets that name
/// nothing and structures.
pub open spec fn is_plain(v: ValueView, names: Map<u32, Seq<char>>) -> bool
    decreases v,
{
    match v {
        ValueView::Null | ValueView::Bool(_) | ValueView::I32(_) | ValueView::F32(_)
        | ValueView::Str(_) => true,
        ValueView::I64(n) => !(i32::MIN <= n <= i32::MAX),
        ValueView::U64(n) => n > i64::MAX,
        ValueView::Flags { enum_hash, bits: _, names: set } => enum_hash == 0 && set.len() == 0,
        ValueView::Array(a) => {
            &&& a.item_type is None
            &&& a.typed_items == exists|i: int|
                0 <= i < a.items.len() && #[trigger] a.items[i] is Struct
            &&& forall|i: int| 0 <= i < a.items.len() ==> is_plain(#[trigger] a.items[i], names)
        },
        ValueView::Pairs(pairs) => {
            &&& pairs.len() > 0
            &&& forall|i: int|
                0 <= i < pairs.len() ==> is_plain((#[trigger] pairs[i]).0, names) && is_plain(
                    pairs[i].1,
                    names,
                )
        },
        ValueView::Struct(s) => {
            &&& known(names, s.type_hash)
            &&& well_named(s.fields, names)
            &&& forall|i: int|
                0 <= i < s.fields.len() ==> is_plain((#[trigger] s.fields[i]).1, names)
        },
        _ => false,
    }
}

proof fn lemma_key_words()
    ensures
        "key"@ != "value"@,
        "key"@ != "$type"@,
        "value"@ != "$type"@,
        "flags"@ != "$type"@,
        "flags"@ != "key"@,
        "flags"@ != "value"@,
{
    reveal_strlit("key");
    reveal_strlit("value");
    reveal_strlit("flags");
    reveal_strlit("$type");
    assert("key"@.len() == 3 && "value"@.len() == 5 && "flags"@.len() == 5 && "$type"@.len() == 5);
    assert("value"@[0] == 'v' && "flags"@[0] == 'f' && "$type"@[0] == '$');
}

proof fn lemma_key_found(obj: Seq<(Seq<char>, JsonView)>, key: Seq<char>, i: int, n: int)
    requires
        0 <= i <= n < obj.len(),
        obj[n].0 == key,
        forall|j: int| i <= j < n ==> (#[trigger] obj[j]).0 != key,
    ensures
        crate::json::key_from(obj, key, i) == n,
    decreases n - i,
{
    if i < n {
        assert(obj[i].0 != key);
        lemma_key_found(obj, key, i + 1, n);
    }
}

proof fn lemma_key_missing(obj: Seq<(Seq<char>, JsonView)>, key: Seq<char>, i: int)
    requires
        0 <= i <= obj.len(),
        forall|j: int| i <= j < obj.len() ==> (#[trigger] obj[j]).0 != key,
    ensures
        crate::json::key_from(obj, key, i) == obj.len(),
    decreases obj.len() - i,
{
    if i < obj.len() {
        assert(obj[i].0 != key);
        lemma_key_missing(obj, key, i + 1);
    }
}

/// Where a member is found, it has that name.
proof fn lemma_key_at(obj: Seq<(Seq<char>, JsonView)>, key: Seq<char>, i: int)
    requires
        0 <= i <= obj.len(),
    ensures
        i <= crate::json::key_from(obj, key, i) <= obj.len(),
        crate::json::key_from(obj, key, i) < obj.len() ==> obj[crate::json::key_from(
            obj,
            key,
            i,
        )].0 == key,
    decreases obj.len() - i,
{
    if i < obj.len() && obj[i].0 != key {
        lemma_key_at(obj, key, i + 1);
    }
}

/// The members of a structure as an object has them.
spec fn members(
    kind: Seq<char>,
    fields: Seq<(u32, ValueView)>,
    names: Map<u32, Seq<char>>,
) -> Seq<(Seq<char>, JsonView)> {
    seq![("$type"@, JsonView::Str(kind))] + Seq::new(
        fields.len(),
        |i: int|
            (crate::names::named(names, fields[i].0), crate::json::json_of(fields[i].1, names)),
    )
}

proof fn lemma_members(
    kind: Seq<char>,
    fields: Seq<(u32, ValueView)>,
    names: Map<u32, Seq<char>>,
)
    requires
        well_named(fields, names),
    ensures
        crate::json::json_fields(kind, fields, names) == members(kind, fields, names),
    decreases fields.len(),
{
    if fields.len() > 0 {
        let before = fields.drop_last();
        let n = before.len() as int;
        assert forall|i: int| 0 <= i < before.len() implies known(names, (#[trigger] before[i]).0)
            && crate::names::named(names, before[i].0) != "$type"@ by {
            assert(before[i] == fields[i]);
        }
        assert forall|i: int, j: int| 0 <= i < j < before.len() implies crate::names::named(
            names,
            (#[trigger] before[i]).0,
        ) != crate::names::named(names, (#[trigger] before[j]).0) by {
            assert(before[i] == fields[i] && before[j] == fields[j]);
        }
        lemma_members(kind, before, names);
        let obj = members(kind, before, names);
        let name = crate::names::named(names, fields.last().0);
        assert(fields.last() == fields[n]);
        assert forall|j: int| 0 <= j < obj.len() implies (#[trigger] obj[j]).0 != name by {
            if j > 0 {
                assert(obj[j].0 == crate::names::named(names, fields[j - 1].0));
            }
        }
        lemma_key_missing(obj, name, 0);
        assert(members(kind, fields, names) =~= obj.push(
            (name, crate::json::json_of(fields.last().1, names)),
        ));
    } else {
        assert(members(kind, fields, names) =~= seq![("$type"@, JsonView::Str(kind))]);
    }
}

proof fn lemma_items(items: Seq<ValueView>, names: Map<u32, Seq<char>>)
    ensures
        crate::json::json_items(items, names) == Seq::new(
            items.len(),
            |i: int| crate::json::json_of(items[i], names),
        ),
    decreases items.len(),
{
    if items.len() > 0 {
        lemma_items(items.drop_last(), names);
    }
    assert(crate::json::json_items(items, names) =~= Seq::new(
        items.len(),
        |i: int| crate::json::json_of(items[i], names),
    ));
}

proof fn lemma_item_values(s: Seq<JsonView>)
    ensures
        crate::json::item_values(s) == Seq::new(s.len(), |i: int| crate::json::tree_of(s[i])),
    decreases s.len(),
{
    if s.len() > 0 {
        lemma_item_values(s.drop_last());
    }
    assert(crate::json::item_values(s) =~= Seq::new(s.len(), |i: int| crate::json::tree_of(s[i])));
}

/// A pair as an object has it.
spec fn pair_node(p: (ValueView, ValueView), names: Map<u32, Seq<char>>) -> JsonView {
    JsonView::Object(
        seq![
            ("key"@, crate::json::json_of(p.0, names)),
            ("value"@, crate::json::json_of(p.1, names)),
        ],
    )
}

proof fn lemma_pairs(pairs: Seq<(ValueView, ValueView)>, names: Map<u32, Seq<char>>)
    ensures
        crate::json::json_pairs(pairs, names) == Seq::new(
            pairs.len(),
            |i: int| pair_node(pairs[i], names),
        ),
    decreases pairs.len(),
{
    if pairs.len() > 0 {
        lemma_pairs(pairs.drop_last(), names);
    }
    assert(crate::json::json_pairs(pairs, names) =~= Seq::new(
        pairs.len(),
        |i: int| pair_node(pairs[i], names),
    ));
}

proof fn lemma_pair_node(p: (ValueView, ValueView), names: Map<u32, Seq<char>>)
    ensures
        crate::json::is_pair(pair_node(p, names)),
        ({
            let obj = pair_node(p, names)->Object_0;
            &&& crate::json::member_value(obj, "key"@) == crate::json::tree_of(
                crate::json::json_of(p.0, names),
            )
            &&& crate::json::member_value(obj, "value"@) == crate::json::tree_of(
                crate::json::json_of(p.1, names),
            )
        }),
{
    let obj = pair_node(p, names)->Object_0;
    lemma_key_words();
    lemma_key_found(obj, "key"@, 0, 0);
    lemma_key_found(obj, "value"@, 0, 1);
}

proof fn lemma_pair_values(
    pairs: Seq<(ValueView, ValueView)>,
    names: Map<u32, Seq<char>>,
    s: Seq<JsonView>,
)
    requires
        s == Seq::new(pairs.len(), |i: int| pair_node(pairs[i], names)),
    ensures
        crate::json::pair_values(s) == Seq::new(
            pairs.len(),
            |i: int|
                (
                    crate::json::tree_of(crate::json::json_of(pairs[i].0, names)),
                    crate::json::tree_of(crate::json::json_of(pairs[i].1, names)),
                ),
        ),
    decreases pairs.len(),
{
    let want = Seq::new(
        pairs.len(),
        |i: int|
            (
                crate::json::tree_of(crate::json::json_of(pairs[i].0, names)),
                crate::json::tree_of(crate::json::json_of(pairs[i].1, names)),
            ),
    );
    if pairs.len() > 0 {
        let before = pairs.drop_last();
        assert(s.drop_last() =~= Seq::new(before.len(), |i: int| pair_node(before[i], names)));
        lemma_pair_values(before, names, s.drop_last());
        lemma_pair_node(pairs.last(), names);
        assert(s.last() == pair_node(pairs.last(), names));
    }
    assert(crate::json::pair_values(s) =~= want);
}

/// What a value of a list is as JSON: no pair, and typed where it is a
/// structure.
proof fn lemma_item_shape(v: ValueView, names: Map<u32, Seq<char>>)
    requires
        is_plain(v, names),
    ensures
        !crate::json::is_pair(crate::json::json_of(v, names)),
        crate::json::is_typed(crate::json::json_of(v, names)) == (v is Struct),
{
    lemma_key_words();
    match v {
        ValueView::Struct(s) => {
            let kind = crate::names::named(names, s.type_hash);
            lemma_members(kind, s.fields, names);
            let obj = members(kind, s.fields, names);
            assert(obj[0].0 == "$type"@);
            lemma_key_found(obj, "$type"@, 0, 0);
            lemma_key_at(obj, "key"@, 0);
            lemma_key_at(obj, "value"@, 0);
        },
        ValueView::Flags { enum_hash, bits, names: set } => {
            let obj = crate::json::json_of(v, names)->Object_0;
            lemma_key_missing(obj, "key"@, 0);
            lemma_key_missing(obj, "$type"@, 0);
        },
        _ => {},
    }
}

proof fn lemma_field_values(
    kind: Seq<char>,
    fields: Seq<(u32, ValueView)>,
    names: Map<u32, Seq<char>>,
)
    requires
        well_named(fields, names),
    ensures
        crate::json::field_values(members(kind, fields, names), true) == Seq::new(
            fields.len(),
            |i: int|
                (
                    fields[i].0,
                    crate::json::tree_of(crate::json::json_of(fields[i].1, names)),
                ),
        ),
    decreases fields.len(),
{
    let obj = members(kind, fields, names);
    let want = Seq::new(
        fields.len(),
        |i: int|
            (fields[i].0, crate::json::tree_of(crate::json::json_of(fields[i].1, names))),
    );
    if fields.len() > 0 {
        let before = fields.drop_last();
        assert forall|i: int| 0 <= i < before.len() implies known(names, (#[trigger] before[i]).0)
            && crate::names::named(names, before[i].0) != "$type"@ by {
            assert(before[i] == fields[i]);
        }
        assert forall|i: int, j: int| 0 <= i < j < before.len() implies crate::names::named(
            names,
            (#[trigger] before[i]).0,
        ) != crate::names::named(names, (#[trigger] before[j]).0) by {
            assert(before[i] == fields[i] && before[j] == fields[j]);
        }
        lemma_field_values(kind, before, names);
        assert(obj.drop_last() =~= members(kind, before, names));
        assert(fields.last() == fields[fields.len() - 1]);
        assert(obj.last().0 == crate::names::named(names, fields.last().0));
        assert(known(names, fields.last().0));
    } else {
        assert(obj.drop_last() =~= Seq::<(Seq<char>, JsonView)>::empty());
        assert(obj.last().0 == "$type"@);
        assert(crate::json::field_values(obj.drop_last(), true) =~= Seq::<(u32, ValueView)>::empty());
    }
    assert(crate::json::field_values(obj, true) =~= want);
}

/// A tree made of what JSON can tell apart comes back from its JSON.
pub proof fn law_plain_trees_come_back(v: ValueView, names: Map<u32, Seq<char>>)
    requires
        is_plain(v, names),
    ensures
        crate::json::tree_of(crate::json::json_of(v, names)) == v,
    decreases v,
{
    match v {
        ValueView::Array(a) => {
            let s = crate::json::json_items(a.items, names);
            lemma_items(a.items, names);
            lemma_item_values(s);
            assert forall|i: int| 0 <= i < a.items.len() implies #[trigger] s[i]
                == crate::json::json_of(a.items[i], names) && crate::json::tree_of(s[i])
                == a.items[i] && !crate::json::is_pair(s[i]) && crate::json::is_typed(s[i]) == (
            a.items[i] is Struct) by {
                assert(is_plain(a.items[i], names));
                lemma_item_shape(a.items[i], names);
                law_plain_trees_come_back(a.items[i], names);
            }
            assert(crate::json::item_values(s) =~= a.items);
            if a.items.len() > 0 {
                assert(!crate::json::is_pair(s[0]));
            }
            let typed = exists|i: int| 0 <= i < s.len() && crate::json::is_typed(#[trigger] s[i]);
            if a.typed_items {
                let i = choose|i: int| 0 <= i < a.items.len() && #[trigger] a.items[i] is Struct;
                assert(crate::json::is_typed(s[i]));
            }
            if typed {
                let i = choose|i: int| 0 <= i < s.len() && crate::json::is_typed(#[trigger] s[i]);
                assert(a.items[i] is Struct);
            }
            assert(a == ArrayView { item_type: None, typed_items: typed, items: a.items });
        },
        ValueView::Pairs(pairs) => {
            let s = crate::json::json_pairs(pairs, names);
            lemma_pairs(pairs, names);
            lemma_pair_values(pairs, names, s);
            assert forall|i: int| 0 <= i < s.len() implies crate::json::is_pair(
                #[trigger] s[i],
            ) by {
                lemma_pair_node(pairs[i], names);
            }
            assert forall|i: int| 0 <= i < pairs.len() implies crate::json::pair_values(s)[i]
                == #[trigger] pairs[i] by {
                assert(decreases_to!(v => v->Pairs_0));
                assert(decreases_to!(pairs => pairs[i]));
                assert(decreases_to!(pairs[i] => pairs[i].0));
                assert(decreases_to!(pairs[i] => pairs[i].1));
                law_plain_trees_come_back(pairs[i].0, names);
                law_plain_trees_come_back(pairs[i].1, names);
            }
            assert(crate::json::pair_values(s) =~= pairs);
        },
        ValueView::Struct(st) => {
            let kind = crate::names::named(names, st.type_hash);
            lemma_members(kind, st.fields, names);
            let obj = members(kind, st.fields, names);
            lemma_field_values(kind, st.fields, names);
            assert(obj[0].0 == "$type"@);
            lemma_key_found(obj, "$type"@, 0, 0);
            assert forall|i: int| 0 <= i < st.fields.len() implies crate::json::field_values(
                obj,
                true,
            )[i] == #[trigger] st.fields[i] by {
                assert(is_plain(st.fields[i].1, names));
                assert(decreases_to!(st.fields => st.fields[i]));
                assert(decreases_to!(st.fields[i] => st.fields[i].1));
                law_plain_trees_come_back(st.fields[i].1, names);
            }
            assert(crate::json::field_values(obj, true) =~= st.fields);
            assert(st == StructView { type_hash: st.type_hash, fields: st.fields });
        },
        ValueView::Flags { enum_hash, bits, names: set } => {
            let obj = crate::json::json_of(v, names)->Object_0;
            lemma_key_words();
            lemma_key_missing(obj, "$type"@, 0);
            lemma_key_found(obj, "value"@, 0, 0);
            lemma_key_found(obj, "flags"@, 0, 1);
            assert(set =~= Seq::<u32>::empty());
        },
        _ => {},
    }
}

} // verus!
