//! What XML keeps of a number.

use vstd::prelude::*;

use crate::math::{Vec2, Vec3, Vec4};
use crate::value::ValueView;
use crate::xml::{Style, XmlAttributeView, XmlNodeView};

verus! {

pub proof fn lemma_decimal_digits(n: nat)
    ensures
        crate::text::decimal(n).len() > 0,
        forall|i: int|
            0 <= i < crate::text::decimal(n).len() ==> '0' <= #[trigger] crate::text::decimal(n)[i]
                <= '9',
    decreases n,
{
    let s = crate::text::decimal(n);
    if n >= 10 {
        lemma_decimal_digits(n / 10);
        let before = crate::text::decimal(n / 10);
        assert(s == before.push(crate::text::digit((n % 10) as int)));
        assert forall|i: int| 0 <= i < s.len() implies '0' <= #[trigger] s[i] <= '9' by {
            if i < before.len() {
                assert(s[i] == before[i]);
            }
        }
    }
}

/// A text without white space at its ends is left as it is.
pub proof fn lemma_trimmed(s: Seq<char>)
    requires
        s.len() > 0,
        !crate::chars::is_space(s[0]),
        !crate::chars::is_space(s[s.len() - 1]),
    ensures
        crate::chars::trimmed(s) == s,
{
    assert(crate::chars::space_end(s, 0) == 0);
    assert(crate::chars::text_end(s, s.len() as int) == s.len());
    assert(s.subrange(0, s.len() as int) =~= s);
}

/// An integer reads back from the text that it is printed as.
pub proof fn law_integers_read_back(n: i64, floats: crate::coerce::Floats)
    ensures
        crate::xml::scalar_of(crate::text::signed_decimal(n as int), floats)
            == crate::json::integer_value(n),
{
    let s = crate::text::signed_decimal(n as int);
    let m = if n < 0 {
        (-(n as int)) as nat
    } else {
        n as nat
    };
    let d = crate::text::decimal(m);
    lemma_decimal_digits(m);
    crate::text::law_decimal_round_trip(m);
    reveal_strlit("true");
    reveal_strlit("false");
    assert("true"@[0] == 't' && "false"@[0] == 'f');
    assert('0' <= d[0] <= '9' && '0' <= d[d.len() - 1] <= '9');
    if n < 0 {
        assert(s.skip(1) =~= d);
        assert(s[0] == '-' && s[s.len() - 1] == d[d.len() - 1]);
    } else {
        assert(s == d);
    }
    lemma_trimmed(s);
}

/// A boolean reads back from the text that it is printed as.
pub proof fn law_booleans_read_back(b: bool, floats: crate::coerce::Floats)
    ensures
        crate::xml::scalar_of(
            if b {
                "true"@
            } else {
                "false"@
            },
            floats,
        ) == ValueView::Bool(b),
{
    reveal_strlit("true");
    reveal_strlit("false");
    assert("true"@[0] == 't' && "true"@[3] == 'e' && "true"@.len() == 4);
    assert("false"@[0] == 'f' && "false"@[4] == 'e' && "false"@.len() == 5);
    lemma_trimmed("true"@);
    lemma_trimmed("false"@);
}

// ─── elements ────────────────────────────────────────────────────────────────

/// The attributes of a tag as they are written, each a name and the text
/// between its quotes.
pub open spec fn written(attributes: Seq<(Seq<char>, Seq<char>)>) -> Seq<char>
    decreases attributes.len(),
{
    if attributes.len() == 0 {
        Seq::empty()
    } else {
        written(attributes.drop_last()) + " "@ + attributes.last().0 + "=\""@
            + attributes.last().1 + "\""@
    }
}

/// An element without content on a line of its own.
pub open spec fn written_element(
    pad: Seq<char>,
    name: Seq<char>,
    attributes: Seq<(Seq<char>, Seq<char>)>,
) -> Seq<char> {
    pad + "<"@ + name + written(attributes) + "/>\n"@
}

/// Whether a node has these attributes and no others.
pub open spec fn has_attributes(
    n: XmlNodeView,
    attributes: Seq<(Seq<char>, Seq<char>)>,
) -> bool {
    n.attributes == Seq::new(
        attributes.len(),
        |i: int|
            XmlAttributeView { namespace: None, name: attributes[i].0, value: attributes[i].1 },
    )
}

/// Whether a single is read back from the text that it is printed as.
pub open spec fn reads_back(
    bits: u32,
    prints: Seq<(u32, Seq<char>)>,
    floats: crate::coerce::Floats,
) -> bool {
    crate::coerce::single_of(
        floats,
        crate::chars::trimmed(crate::xml::float_text(bits, prints)),
    ) == Some(bits)
}

proof fn lemma_letters()
    ensures
        " "@ == seq![' '],
        "\""@ == seq!['"'],
        "=\""@ == seq!['=', '"'],
        "x"@ == seq!['x'],
        "y"@ == seq!['y'],
        "z"@ == seq!['z'],
        "w"@ == seq!['w'],
        "value"@ == seq!['v', 'a', 'l', 'u', 'e'],
        " x=\""@ == seq![' ', 'x', '=', '"'],
        "\" y=\""@ == seq!['"', ' ', 'y', '=', '"'],
        "\" z=\""@ == seq!['"', ' ', 'z', '=', '"'],
        "\" w=\""@ == seq!['"', ' ', 'w', '=', '"'],
        " value=\""@ == seq![' ', 'v', 'a', 'l', 'u', 'e', '=', '"'],
        "/>\n"@ == seq!['/', '>', '\n'],
        "\"/>\n"@ == seq!['"', '/', '>', '\n'],
{
    reveal_strlit(" ");
    reveal_strlit("\"");
    reveal_strlit("=\"");
    reveal_strlit("x");
    reveal_strlit("y");
    reveal_strlit("z");
    reveal_strlit("w");
    reveal_strlit("value");
    reveal_strlit(" x=\"");
    reveal_strlit("\" y=\"");
    reveal_strlit("\" z=\"");
    reveal_strlit("\" w=\"");
    reveal_strlit(" value=\"");
    reveal_strlit("/>\n");
    reveal_strlit("\"/>\n");
    assert(" "@ =~= seq![' ']);
    assert("\""@ =~= seq!['"']);
    assert("=\""@ =~= seq!['=', '"']);
    assert("x"@ =~= seq!['x']);
    assert("y"@ =~= seq!['y']);
    assert("z"@ =~= seq!['z']);
    assert("w"@ =~= seq!['w']);
    assert("value"@ =~= seq!['v', 'a', 'l', 'u', 'e']);
    assert(" x=\""@ =~= seq![' ', 'x', '=', '"']);
    assert("\" y=\""@ =~= seq!['"', ' ', 'y', '=', '"']);
    assert("\" z=\""@ =~= seq!['"', ' ', 'z', '=', '"']);
    assert("\" w=\""@ =~= seq!['"', ' ', 'w', '=', '"']);
    assert(" value=\""@ =~= seq![' ', 'v', 'a', 'l', 'u', 'e', '=', '"']);
    assert("/>\n"@ =~= seq!['/', '>', '\n']);
    assert("\"/>\n"@ =~= seq!['"', '/', '>', '\n']);
}

proof fn lemma_names_differ()
    ensures
        "x"@ != "y"@,
        "x"@ != "z"@,
        "x"@ != "w"@,
        "y"@ != "z"@,
        "y"@ != "w"@,
        "z"@ != "w"@,
        "value"@ != "x"@,
        "value"@ != "y"@,
        "value"@ != "z"@,
        "value"@ != "w"@,
{
    lemma_letters();
    assert("x"@[0] == 'x' && "y"@[0] == 'y' && "z"@[0] == 'z' && "w"@[0] == 'w');
    assert("value"@.len() == 5 && "x"@.len() == 1 && "y"@.len() == 1 && "z"@.len() == 1
        && "w"@.len() == 1);
}

proof fn lemma_written(attributes: Seq<(Seq<char>, Seq<char>)>, name: Seq<char>, text: Seq<char>)
    ensures
        written(attributes.push((name, text))) == written(attributes) + " "@ + name + "=\""@ + text
            + "\""@,
        written(Seq::empty()) == Seq::<char>::empty(),
{
    let more = attributes.push((name, text));
    assert(more.drop_last() =~= attributes);
}

/// The attributes of a vector, as a list.
pub open spec fn vector_list(texts: Seq<Seq<char>>) -> Seq<(Seq<char>, Seq<char>)> {
    Seq::new(
        texts.len(),
        |i: int|
            (
                if i == 0 {
                    "x"@
                } else if i == 1 {
                    "y"@
                } else if i == 2 {
                    "z"@
                } else {
                    "w"@
                },
                texts[i],
            ),
    )
}

proof fn lemma_two_written(pad: Seq<char>, name: Seq<char>, a: Seq<char>, b: Seq<char>)
    ensures
        pad + "<"@ + name + " x=\""@ + a + "\" y=\""@ + b + "\""@ == pad + "<"@ + name + written(
            vector_list(seq![a, b]),
        ),
{
    lemma_letters();
    let none = Seq::<(Seq<char>, Seq<char>)>::empty();
    let one = none.push(("x"@, a));
    let two = one.push(("y"@, b));
    lemma_written(none, "x"@, a);
    lemma_written(one, "y"@, b);
    assert(vector_list(seq![a, b]) =~= two);
    assert(written(one) =~= " x=\""@ + a + "\""@);
    assert(written(two) =~= " x=\""@ + a + "\" y=\""@ + b + "\""@);
    assert(pad + "<"@ + name + " x=\""@ + a + "\" y=\""@ + b + "\""@ =~= pad + "<"@ + name
        + written(two));
}

proof fn lemma_more_written(
    front: Seq<char>,
    texts: Seq<Seq<char>>,
    before: Seq<char>,
    next: Seq<char>,
    text: Seq<char>,
    join: Seq<char>,
)
    requires
        2 <= texts.len() <= 3,
        before + "\""@ == front + written(vector_list(texts)),
        next == (if texts.len() == 2 {
            "z"@
        } else {
            "w"@
        }),
        join == "\""@ + " "@ + next + "=\""@,
    ensures
        before + join + text + "\""@ == front + written(vector_list(texts.push(text))),
{
    lemma_letters();
    lemma_written(vector_list(texts), next, text);
    assert(vector_list(texts.push(text)) =~= vector_list(texts).push((next, text)));
    assert(before + join + text + "\""@ =~= (before + "\""@) + " "@ + next + "=\""@ + text
        + "\""@);
    assert(front + written(vector_list(texts.push(text))) =~= (front + written(
        vector_list(texts),
    )) + " "@ + next + "=\""@ + text + "\""@);
}

proof fn lemma_vector_written(
    pad: Seq<char>,
    name: Seq<char>,
    v: Seq<u32>,
    f: Seq<(u32, Seq<char>)>,
)
    requires
        2 <= v.len() <= 4,
    ensures
        crate::xml::vector_tag(pad, name, v, f) == written_element(
            pad,
            name,
            vector_list(Seq::new(v.len(), |i: int| crate::xml::float_text(v[i], f))),
        ),
{
    let t = Seq::new(v.len(), |i: int| crate::xml::float_text(v[i], f));
    let front = pad + "<"@ + name;
    let xy = pad + "<"@ + name + " x=\""@ + t[0] + "\" y=\""@ + t[1];
    lemma_letters();
    lemma_two_written(pad, name, t[0], t[1]);
    let two = seq![t[0], t[1]];
    assert("\" z=\""@ =~= "\""@ + " "@ + "z"@ + "=\""@);
    assert("\" w=\""@ =~= "\""@ + " "@ + "w"@ + "=\""@);
    if v.len() == 2 {
        assert(t =~= two);
        assert(xy + "\"/>\n"@ =~= (xy + "\""@) + "/>\n"@);
    } else {
        let three = two.push(t[2]);
        lemma_more_written(front, two, xy, "z"@, t[2], "\" z=\""@);
        let xyz = xy + "\" z=\""@ + t[2];
        if v.len() == 3 {
            assert(t =~= three);
            assert(xyz + "\"/>\n"@ =~= (xyz + "\""@) + "/>\n"@);
        } else {
            let four = three.push(t[3]);
            lemma_more_written(front, three, xyz, "w"@, t[3], "\" w=\""@);
            let xyzw = xyz + "\" w=\""@ + t[3];
            assert(t =~= four);
            assert(xyzw + "\"/>\n"@ =~= (xyzw + "\""@) + "/>\n"@);
        }
    }
}

proof fn lemma_attribute(n: XmlNodeView, list: Seq<(Seq<char>, Seq<char>)>, name: Seq<char>, k: int)
    requires
        has_attributes(n, list),
        0 <= k <= list.len() <= 4,
        forall|i: int| 0 <= i < k ==> (#[trigger] list[i]).0 != name,
        k < list.len() ==> list[k].0 == name,
    ensures
        crate::xml::attribute_of(n, name) == (if k < list.len() {
            Some(list[k].1)
        } else {
            None
        }),
{
    assert(n.attributes.len() == list.len());
    assert forall|i: int| 0 <= i < list.len() implies (#[trigger] n.attributes[i]).name
        == list[i].0 && n.attributes[i].value == list[i].1 && n.attributes[i].namespace
        is None by {}
    lemma_attribute_from(n.attributes, name, 0, k);
}

proof fn lemma_attribute_from(attributes: Seq<XmlAttributeView>, name: Seq<char>, i: int, k: int)
    requires
        0 <= i <= k <= attributes.len(),
        forall|j: int| i <= j < k ==> (#[trigger] attributes[j]).name != name,
        k < attributes.len() ==> attributes[k].name == name && attributes[k].namespace is None,
    ensures
        crate::xml::attribute_from(attributes, name, i) == (if k < attributes.len() {
            Some(attributes[k].value)
        } else {
            None
        }),
    decreases k - i,
{
    if i < k {
        assert(attributes[i].name != name);
        lemma_attribute_from(attributes, name, i + 1, k);
    }
}

/// A vector survives XML: its element has an attribute for each component,
/// `x`, `y`, `z` and `w` in turn, and the element with these attributes reads
/// as the same vector again.
pub proof fn law_vectors_survive_xml(
    pad: Seq<char>,
    name: Seq<char>,
    q: Vec4,
    st: Style,
    floats: crate::coerce::Floats,
    n: XmlNodeView,
)
    requires
        reads_back(q.x, st.floats, floats),
        reads_back(q.y, st.floats, floats),
        reads_back(q.z, st.floats, floats),
        reads_back(q.w, st.floats, floats),
    ensures
        ({
            let text = |b: u32| crate::xml::float_text(b, st.floats);
            let two = seq![("x"@, text(q.x)), ("y"@, text(q.y))];
            let three = two.push(("z"@, text(q.z)));
            let four = three.push(("w"@, text(q.w)));
            let v2 = ValueView::Vec2(Vec2 { x: q.x, y: q.y });
            let v3 = ValueView::Vec3(Vec3 { x: q.x, y: q.y, z: q.z });
            let v4 = ValueView::Vec4(q);
            &&& crate::xml::member_text(pad, name, v2, st) == written_element(pad, name, two)
            &&& crate::xml::member_text(pad, name, v3, st) == written_element(pad, name, three)
            &&& crate::xml::member_text(pad, name, v4, st) == written_element(pad, name, four)
            &&& has_attributes(n, two) ==> crate::xml::attribute_value(n, floats) == Some(v2)
            &&& has_attributes(n, three) ==> crate::xml::attribute_value(n, floats) == Some(v3)
            &&& has_attributes(n, four) ==> crate::xml::attribute_value(n, floats) == Some(v4)
        }),
{
    let text = |b: u32| crate::xml::float_text(b, st.floats);
    let two = seq![("x"@, text(q.x)), ("y"@, text(q.y))];
    let three = two.push(("z"@, text(q.z)));
    let four = three.push(("w"@, text(q.w)));
    let (b2, b3, b4) = (seq![q.x, q.y], seq![q.x, q.y, q.z], seq![q.x, q.y, q.z, q.w]);
    lemma_vector_written(pad, name, b2, st.floats);
    lemma_vector_written(pad, name, b3, st.floats);
    lemma_vector_written(pad, name, b4, st.floats);
    let texts = |b: Seq<u32>|
        Seq::new(b.len(), |i: int| crate::xml::float_text(b[i], st.floats));
    assert(vector_list(texts(b2)) =~= two);
    assert(vector_list(texts(b3)) =~= three);
    assert(vector_list(texts(b4)) =~= four);
    lemma_names_differ();
    if has_attributes(n, two) {
        lemma_vector_read(n, two);
    }
    if has_attributes(n, three) {
        lemma_vector_read(n, three);
    }
    if has_attributes(n, four) {
        lemma_vector_read(n, four);
    }
}

proof fn lemma_vector_read(n: XmlNodeView, list: Seq<(Seq<char>, Seq<char>)>)
    requires
        2 <= list.len() <= 4,
        has_attributes(n, list),
        list[0].0 == "x"@,
        list[1].0 == "y"@,
        list.len() > 2 ==> list[2].0 == "z"@,
        list.len() > 3 ==> list[3].0 == "w"@,
    ensures
        crate::xml::attribute_of(n, "value"@) is None,
        crate::xml::attribute_of(n, "x"@) == Some(list[0].1),
        crate::xml::attribute_of(n, "y"@) == Some(list[1].1),
        crate::xml::attribute_of(n, "z"@) == (if list.len() > 2 {
            Some(list[2].1)
        } else {
            None
        }),
        crate::xml::attribute_of(n, "w"@) == (if list.len() > 3 {
            Some(list[3].1)
        } else {
            None
        }),
{
    lemma_names_differ();
    let len = list.len() as int;
    lemma_attribute(n, list, "value"@, len);
    lemma_attribute(n, list, "x"@, 0);
    lemma_attribute(n, list, "y"@, 1);
    lemma_attribute(n, list, "z"@, 2);
    lemma_attribute(
        n,
        list,
        "w"@,
        if len > 3 {
            3
        } else {
            len
        },
    );
}

/// The number that an integer value holds.
pub open spec fn whole(v: ValueView) -> Option<int> {
    match v {
        ValueView::I8(n) => Some(n as int),
        ValueView::U8(n) => Some(n as int),
        ValueView::I16(n) => Some(n as int),
        ValueView::U16(n) => Some(n as int),
        ValueView::I32(n) => Some(n as int),
        ValueView::U32(n) => Some(n as int),
        ValueView::I64(n) => Some(n as int),
        _ => None,
    }
}

proof fn lemma_plain_text(s: Seq<char>)
    requires
        forall|i: int|
            0 <= i < s.len() ==> s[i] != '&' && s[i] != '<' && s[i] != '>' && #[trigger] s[i] != '"',
    ensures
        crate::xml::escaped(s) == s,
    decreases s.len(),
{
    if s.len() > 0 {
        assert forall|i: int| 0 <= i < s.drop_last().len() implies s.drop_last()[i] != '&'
            && s.drop_last()[i] != '<' && s.drop_last()[i] != '>' && #[trigger] s.drop_last()[i]
            != '"' by {
            assert(s.drop_last()[i] == s[i]);
        }
        lemma_plain_text(s.drop_last());
        assert(s[s.len() - 1] == s.last());
        assert(crate::xml::escaped(s) =~= s.drop_last() + seq![s.last()]);
        assert(s =~= s.drop_last() + seq![s.last()]);
    } else {
        assert(crate::xml::escaped(s) =~= s);
    }
}

proof fn lemma_value_written(pad: Seq<char>, name: Seq<char>, text: Seq<char>)
    ensures
        crate::xml::value_tag(pad, name, text) == written_element(
            pad,
            name,
            seq![("value"@, crate::xml::escaped(text))],
        ),
{
    lemma_letters();
    let e = crate::xml::escaped(text);
    let none = Seq::<(Seq<char>, Seq<char>)>::empty();
    lemma_written(none, "value"@, e);
    assert(seq![("value"@, e)] =~= none.push(("value"@, e)));
    assert(written(seq![("value"@, e)]) =~= " value=\""@ + e + "\""@);
    assert(crate::xml::value_tag(pad, name, text) =~= pad + "<"@ + name + (" value=\""@ + e
        + "\""@) + "/>\n"@);
}

/// An integer survives XML: its element has one attribute, `value`, with its
/// decimal digits, and reads as the same number again.
pub proof fn law_integers_survive_xml(
    pad: Seq<char>,
    name: Seq<char>,
    v: ValueView,
    st: Style,
    floats: crate::coerce::Floats,
    n: XmlNodeView,
)
    requires
        whole(v) is Some,
    ensures
        ({
            let list = seq![("value"@, crate::text::signed_decimal(whole(v)->0))];
            &&& crate::xml::member_text(pad, name, v, st) == written_element(pad, name, list)
            &&& has_attributes(n, list) ==> {
                let r = crate::xml::attribute_value(n, floats);
                &&& r is Some
                &&& whole(r->0) == whole(v)
            }
        }),
{
    let k = whole(v)->0;
    let text = crate::text::signed_decimal(k);
    let m = if k < 0 {
        (-k) as nat
    } else {
        k as nat
    };
    lemma_decimal_digits(m);
    assert forall|i: int| 0 <= i < text.len() implies text[i] != '&' && text[i] != '<' && text[i]
        != '>' && #[trigger] text[i] != '"' by {
        let d = crate::text::decimal(m);
        if k < 0 && i > 0 {
            assert(text[i] == d[i - 1]);
        } else if k >= 0 {
            assert(text[i] == d[i]);
        }
    }
    lemma_plain_text(text);
    lemma_value_written(pad, name, text);
    law_integers_read_back(k as i64, floats);
    let list = seq![("value"@, text)];
    if has_attributes(n, list) {
        lemma_attribute(n, list, "value"@, 0);
    }
}

/// A boolean survives XML in the same way.
pub proof fn law_booleans_survive_xml(
    pad: Seq<char>,
    name: Seq<char>,
    b: bool,
    st: Style,
    floats: crate::coerce::Floats,
    n: XmlNodeView,
)
    ensures
        ({
            let list = seq![
                (
                    "value"@,
                    if b {
                        "true"@
                    } else {
                        "false"@
                    },
                ),
            ];
            &&& crate::xml::member_text(pad, name, ValueView::Bool(b), st) == written_element(
                pad,
                name,
                list,
            )
            &&& has_attributes(n, list) ==> crate::xml::attribute_value(n, floats) == Some(
                ValueView::Bool(b),
            )
        }),
{
    let text = if b {
        "true"@
    } else {
        "false"@
    };
    reveal_strlit("true");
    reveal_strlit("false");
    lemma_plain_text("true"@);
    lemma_plain_text("false"@);
    lemma_value_written(pad, name, text);
    law_booleans_read_back(b, floats);
    let list = seq![("value"@, text)];
    if has_attributes(n, list) {
        lemma_attribute(n, list, "value"@, 0);
    }
}

/// A single is printed in an attribute called `value`: as a whole number where
/// it is a small one, else as its entry in the table.
pub proof fn law_singles_survive_xml(
    pad: Seq<char>,
    name: Seq<char>,
    bits: u32,
    st: Style,
    floats: crate::coerce::Floats,
    n: XmlNodeView,
)
    ensures
        ({
            let text = crate::xml::float_text(bits, st.floats);
            let list = seq![("value"@, text)];
            &&& crate::xml::member_text(pad, name, ValueView::F32(bits), st) == written_element(
                pad,
                name,
                seq![("value"@, crate::xml::escaped(text))],
            )
            &&& has_attributes(n, list) ==> crate::xml::attribute_value(n, floats) == Some(
                crate::xml::scalar_of(text, floats),
            )
        }),
{
    let text = crate::xml::float_text(bits, st.floats);
    lemma_value_written(pad, name, text);
    let list = seq![("value"@, text)];
    if has_attributes(n, list) {
        lemma_attribute(n, list, "value"@, 0);
    }
}

// ─── the tree of elements ────────────────────────────────────────────────────

proof fn lemma_children_among(nodes: Seq<XmlNodeView>, i: int, n: nat)
    ensures
        ({
            let c = crate::xml::children_among(nodes, i, n);
            &&& c.len() <= n
            &&& forall|k: int| 0 <= k < c.len() ==> 0 <= #[trigger] c[k] < n
            &&& forall|j: int, k: int| 0 <= j < k < c.len() ==> (#[trigger] c[j]) < (#[trigger] c[k])
            &&& forall|j: int|
                0 <= j < n ==> (#[trigger] c.contains(j) <==> nodes[j].element && nodes[j].parent
                    == i && j > i)
        }),
    decreases n,
{
    let c = crate::xml::children_among(nodes, i, n);
    if n > 0 {
        let before = crate::xml::children_among(nodes, i, (n - 1) as nat);
        lemma_children_among(nodes, i, (n - 1) as nat);
        assert forall|j: int| 0 <= j < n implies (#[trigger] c.contains(j) <==> nodes[j].element
            && nodes[j].parent == i && j > i) by {
            if j < n - 1 {
                assert(before.contains(j) <==> nodes[j].element && nodes[j].parent == i && j > i);
                if before.contains(j) {
                    let k = choose|k: int| 0 <= k < before.len() && before[k] == j;
                    assert(c[k] == j);
                } else if c.contains(j) {
                    let k = choose|k: int| 0 <= k < c.len() && c[k] == j;
                    assert(k < before.len());
                    assert(before[k] == j);
                }
            } else if crate::xml::is_child(nodes, i, n - 1) {
                assert(c[c.len() - 1] == j);
            } else if c.contains(j) {
                let k = choose|k: int| 0 <= k < c.len() && c[k] == j;
                assert(before[k] < n - 1);
            }
        }
        assert forall|j: int, k: int| 0 <= j < k < c.len() implies (#[trigger] c[j]) < (
        #[trigger] c[k]) by {
            assert(c[j] == before[j]);
            if k < before.len() {
                assert(c[k] == before[k]);
            }
        }
    }
}

/// The children of an element are the elements that name it as the node
/// above, in the order in which they start.
pub proof fn law_children_in_order(nodes: Seq<XmlNodeView>, i: int)
    ensures
        ({
            let c = crate::xml::children_of(nodes, i);
            &&& forall|j: int, k: int| 0 <= j < k < c.len() ==> (#[trigger] c[j]) < (#[trigger] c[k])
            &&& forall|j: int|
                0 <= j < nodes.len() ==> (#[trigger] c.contains(j) <==> nodes[j].element
                    && nodes[j].parent == i && j > i)
        }),
{
    lemma_children_among(nodes, i, nodes.len());
}

proof fn lemma_child_values(
    nodes: Seq<XmlNodeView>,
    i: int,
    k: nat,
    floats: crate::coerce::Floats,
)
    requires
        0 <= i,
        k <= crate::xml::children_of(nodes, i).len(),
    ensures
        crate::xml::child_values(nodes, i, k, floats).len() == k,
        forall|j: int|
            0 <= j < k ==> #[trigger] crate::xml::child_values(nodes, i, k, floats)[j] == (
                crate::coerce::text_hash(nodes[crate::xml::children_of(nodes, i)[j]].tag),
                crate::xml::element_value(nodes, crate::xml::children_of(nodes, i)[j], floats),
            ),
    decreases k,
{
    if k > 0 {
        lemma_child_values(nodes, i, (k - 1) as nat, floats);
        lemma_children_among(nodes, i, nodes.len());
        let c = crate::xml::children_of(nodes, i);
        assert(c.contains(c[k - 1]));
    }
}

/// An element with elements in it, not all of them items, is a structure: of
/// the type that its `type` names, or else its own name, with a member for
/// each element in it, in order, under the hash of that element's name.
pub proof fn law_structures_have_their_members(
    nodes: Seq<XmlNodeView>,
    i: int,
    floats: crate::coerce::Floats,
)
    requires
        0 <= i < nodes.len(),
        crate::xml::attribute_value(nodes[i], floats) is None,
        exists|k: int|
            0 <= k < crate::xml::children_of(nodes, i).len() && (
            #[trigger] nodes[crate::xml::children_of(nodes, i)[k]]).tag != "Item"@,
    ensures
        ({
            let c = crate::xml::children_of(nodes, i);
            let v = crate::xml::element_value(nodes, i, floats);
            &&& v is Struct
            &&& v->Struct_0.type_hash == crate::coerce::text_hash(
                match crate::xml::attribute_of(nodes[i], "type"@) {
                    Some(t) => t,
                    None => nodes[i].tag,
                },
            )
            &&& v->Struct_0.fields.len() == c.len()
            &&& forall|k: int|
                0 <= k < c.len() ==> (#[trigger] v->Struct_0.fields[k]) == (
                    crate::coerce::text_hash(nodes[c[k]].tag),
                    crate::xml::element_value(nodes, c[k], floats),
                )
        }),
{
    lemma_children_among(nodes, i, nodes.len());
    lemma_child_values(nodes, i, crate::xml::children_of(nodes, i).len(), floats);
}

/// An element with items in it and nothing else is a list of them, in order.
pub proof fn law_lists_have_their_items(
    nodes: Seq<XmlNodeView>,
    i: int,
    floats: crate::coerce::Floats,
)
    requires
        0 <= i < nodes.len(),
        crate::xml::attribute_value(nodes[i], floats) is None,
        crate::xml::children_of(nodes, i).len() > 0,
        forall|k: int|
            0 <= k < crate::xml::children_of(nodes, i).len() ==> (
            #[trigger] nodes[crate::xml::children_of(nodes, i)[k]]).tag == "Item"@,
    ensures
        ({
            let c = crate::xml::children_of(nodes, i);
            let v = crate::xml::element_value(nodes, i, floats);
            &&& v is Array
            &&& v->Array_0.items.len() == c.len()
            &&& forall|k: int|
                0 <= k < c.len() ==> (#[trigger] v->Array_0.items[k]) == crate::xml::element_value(
                    nodes,
                    c[k],
                    floats,
                )
            &&& v->Array_0.typed_items <==> exists|k: int|
                0 <= k < c.len() && crate::xml::attribute_of(#[trigger] nodes[c[k]], "type"@)
                    is Some
        }),
{
    lemma_children_among(nodes, i, nodes.len());
    lemma_child_values(nodes, i, crate::xml::children_of(nodes, i).len(), floats);
}

// ─── markup characters ───────────────────────────────────────────────────────

/// The text that a character stands for where a reference starts there, and
/// how many characters the reference takes.
pub open spec fn referred(s: Seq<char>) -> (char, int) {
    if s.len() >= 5 && s.take(5) == "&amp;"@ {
        ('&', 5)
    } else if s.len() >= 4 && s.take(4) == "&lt;"@ {
        ('<', 4)
    } else if s.len() >= 4 && s.take(4) == "&gt;"@ {
        ('>', 4)
    } else if s.len() >= 6 && s.take(6) == "&quot;"@ {
        ('"', 6)
    } else {
        (s[0], 1)
    }
}

/// A text with its references resolved.
pub open spec fn resolved(s: Seq<char>) -> Seq<char>
    decreases s.len(),
{
    if s.len() == 0 {
        Seq::empty()
    } else {
        let (c, n) = referred(s);
        seq![c] + resolved(s.skip(n))
    }
}

proof fn lemma_escaped_first(c: char, rest: Seq<char>)
    ensures
        resolved(crate::xml::escaped_char(c) + rest) == seq![c] + resolved(rest),
{
    reveal_strlit("&amp;");
    reveal_strlit("&lt;");
    reveal_strlit("&gt;");
    reveal_strlit("&quot;");
    let e = crate::xml::escaped_char(c);
    let s = e + rest;
    assert(s.take(e.len() as int) =~= e);
    assert(s.skip(e.len() as int) =~= rest);
    assert("&amp;"@[0] == '&' && "&amp;"@[1] == 'a');
    assert("&lt;"@[0] == '&' && "&lt;"@[1] == 'l');
    assert("&gt;"@[0] == '&' && "&gt;"@[1] == 'g');
    assert("&quot;"@[0] == '&' && "&quot;"@[1] == 'q');
    assert(s[0] == e[0]);
    if s.len() >= 4 {
        assert(s.take(4)[0] == s[0] && s.take(4)[1] == s[1]);
    }
    if s.len() >= 5 {
        assert(s.take(5)[0] == s[0] && s.take(5)[1] == s[1]);
    }
    if s.len() >= 6 {
        assert(s.take(6)[0] == s[0] && s.take(6)[1] == s[1]);
    }
    assert(referred(s) == (c, e.len() as int));
}

proof fn lemma_escaped_front(c: char, rest: Seq<char>)
    ensures
        crate::xml::escaped(seq![c] + rest) == crate::xml::escaped_char(c) + crate::xml::escaped(
            rest,
        ),
    decreases rest.len(),
{
    let s = seq![c] + rest;
    if rest.len() == 0 {
        assert(s.drop_last() =~= Seq::<char>::empty());
        assert(s.last() == c);
        assert(crate::xml::escaped(s.drop_last()) =~= Seq::<char>::empty());
        assert(crate::xml::escaped(rest) =~= Seq::<char>::empty());
        assert(crate::xml::escaped(s) =~= crate::xml::escaped_char(c) + crate::xml::escaped(rest));
    } else {
        assert(s.drop_last() =~= seq![c] + rest.drop_last());
        assert(s.last() == rest.last());
        lemma_escaped_front(c, rest.drop_last());
        assert(crate::xml::escaped(s) =~= crate::xml::escaped_char(c) + crate::xml::escaped(rest));
    }
}

/// A text survives in an attribute or between two tags: with its references
/// resolved it is the same text, and no markup character stands in it bare.
pub proof fn law_texts_survive_escaping(s: Seq<char>)
    ensures
        resolved(crate::xml::escaped(s)) == s,
        forall|i: int|
            0 <= i < crate::xml::escaped(s).len() ==> {
                let c = #[trigger] crate::xml::escaped(s)[i];
                c != '<' && c != '>' && c != '"'
            },
    decreases s.len(),
{
    if s.len() == 0 {
        assert(resolved(crate::xml::escaped(s)) =~= s);
    } else {
        let rest = s.skip(1);
        assert(s =~= seq![s[0]] + rest);
        lemma_escaped_front(s[0], rest);
        law_texts_survive_escaping(rest);
        lemma_escaped_first(s[0], crate::xml::escaped(rest));
        reveal_strlit("&amp;");
        reveal_strlit("&lt;");
        reveal_strlit("&gt;");
        reveal_strlit("&quot;");
        let e = crate::xml::escaped_char(s[0]);
        assert forall|i: int| 0 <= i < crate::xml::escaped(s).len() implies {
            let c = #[trigger] crate::xml::escaped(s)[i];
            c != '<' && c != '>' && c != '"'
        } by {
            if i >= e.len() {
                assert(crate::xml::escaped(s)[i] == crate::xml::escaped(rest)[i - e.len()]);
            }
        }
    }
}

} // verus!
