//! XML for a [`MetaValue`] tree, in the layout CodeWalker's exporters use
//! so that a dump can be diffed against one: scalars as `<name value="…"/>`,
//! strings and hashes as `<name>text</name>`, vectors as `<name x= y= z=/>`,
//! structures as nested elements and arrays as `<Item>` children (with a
//! `type` attribute when the elements were reached through pointers and
//! may differ in type).

use vstd::prelude::*;
use vstd::slice::*;
use vstd::string::*;

use crate::chars::{parse_signed, parse_unsigned, same_chars, split_words, strip, trim};
use crate::coerce::{hash_of_str, FloatTexts};
use crate::math::{Vec2, Vec3, Vec4};
use crate::names::NameTable;
use crate::single::{i64_to_single, single_to_i64};
use crate::text::{chars_of, push_decimal, push_hex, push_signed, string_of};
use crate::value::{ArrayView, MetaArray, MetaStruct, MetaValue, StructView, ValueView};

verus! {

broadcast use vstd::slice::group_slice_axioms;

/// How a single that is no small whole number is written.
#[derive(Debug, PartialEq, Eq)]
pub struct FloatPrint {
    pub bits: u32,
    pub text: String,
}

/// How singles are written: the shortest text that reads back the same.
#[derive(Debug, PartialEq, Eq)]
pub struct FloatPrints {
    pub entries: Vec<FloatPrint>,
}

impl View for FloatPrints {
    type V = Seq<(u32, Seq<char>)>;

    open spec fn view(&self) -> Seq<(u32, Seq<char>)> {
        Seq::new(
            self.entries@.len(),
            |i: int| (self.entries@[i].bits, self.entries@[i].text@),
        )
    }
}

/// The bits of the smallest single that is no longer written as an integer.
pub const WHOLE_LIMIT: u32 = 0x5863_5FA9;

/// Whether a single is a whole number below 10^15 in magnitude.
pub open spec fn is_small_whole(bits: u32) -> bool {
    bits % 0x8000_0000 < WHOLE_LIMIT && (bits == 0x8000_0000 || crate::single::from_integer(
        crate::single::to_integer(bits) as int,
    ) == bits)
}

/// The text that the first entry from `i` on gives for a single.
pub open spec fn printed_from(f: Seq<(u32, Seq<char>)>, bits: u32, i: int) -> Seq<char>
    decreases f.len() - i,
{
    if i >= f.len() {
        Seq::empty()
    } else if f[i].0 == bits {
        f[i].1
    } else {
        printed_from(f, bits, i + 1)
    }
}

/// A single the way CodeWalker prints one: an integer where it is one.
pub open spec fn float_text(bits: u32, f: Seq<(u32, Seq<char>)>) -> Seq<char> {
    if is_small_whole(bits) {
        crate::text::signed_decimal(crate::single::to_integer(bits) as int)
    } else {
        printed_from(f, bits, 0)
    }
}

/// Whether a single is written without a look into the table.
pub fn is_whole_single(bits: u32) -> (r: bool)
    ensures
        r == is_small_whole(bits),
{
    bits % 0x8000_0000 < WHOLE_LIMIT && (bits == 0x8000_0000 || i64_to_single(single_to_i64(bits))
        == bits)
}

impl FloatPrints {
    /// No texts: only whole numbers are written.
    pub fn new() -> (r: Self)
        ensures
            r@ == Seq::<(u32, Seq<char>)>::empty(),
    {
        let r = FloatPrints { entries: Vec::new() };
        assert(r@ =~= Seq::<(u32, Seq<char>)>::empty());
        r
    }

    /// Writes a single.
    fn push_float(&self, out: &mut String, bits: u32)
        ensures
            final(out)@ == old(out)@ + float_text(bits, self@),
    {
        let ghost before = out@;
        if is_whole_single(bits) {
            push_signed(out, single_to_i64(bits));
            return;
        }
        let mut i: usize = 0;
        while i < self.entries.len()
            invariant
                i <= self.entries@.len(),
                before == old(out)@,
                out@ == before,
                !is_small_whole(bits),
                printed_from(self@, bits, 0) == printed_from(self@, bits, i as int),
            decreases self.entries@.len() - i,
        {
            if self.entries[i].bits == bits {
                out.append(self.entries[i].text.as_str());
                return;
            }
            i += 1;
        }
        assert(out@ =~= before + Seq::<char>::empty());
    }
}

/// A single the way CodeWalker prints one: shortest round-trip form, with
/// no exponent for the magnitudes map data uses.
pub fn float(bits: u32, prints: &FloatPrints) -> (r: String)
    ensures
        r@ == float_text(bits, prints@),
{
    let mut out = String::new();
    prints.push_float(&mut out, bits);
    assert(out@ =~= float_text(bits, prints@));
    out
}

// ─── the pieces of a document ────────────────────────────────────────────────

/// A character in a text or an attribute.
pub open spec fn escaped_char(c: char) -> Seq<char> {
    if c == '&' {
        "&amp;"@
    } else if c == '<' {
        "&lt;"@
    } else if c == '>' {
        "&gt;"@
    } else if c == '"' {
        "&quot;"@
    } else {
        seq![c]
    }
}

/// A text with its markup characters escaped.
pub open spec fn escaped(s: Seq<char>) -> Seq<char>
    decreases s.len(),
{
    if s.len() == 0 {
        Seq::empty()
    } else {
        escaped(s.drop_last()) + escaped_char(s.last())
    }
}

/// `<name/>` on a line of its own.
pub open spec fn empty_tag(pad: Seq<char>, name: Seq<char>) -> Seq<char> {
    pad + "<"@ + name + "/>\n"@
}

/// `<name>` on a line of its own.
pub open spec fn open_tag(pad: Seq<char>, name: Seq<char>) -> Seq<char> {
    pad + "<"@ + name + ">\n"@
}

/// `</name>` on a line of its own.
pub open spec fn close_tag(pad: Seq<char>, name: Seq<char>) -> Seq<char> {
    pad + "</"@ + name + ">\n"@
}

/// `<name attr="value"` and what ends the tag.
pub open spec fn attr_tag(
    pad: Seq<char>,
    name: Seq<char>,
    attr: Seq<char>,
    value: Seq<char>,
    end: Seq<char>,
) -> Seq<char> {
    pad + "<"@ + name + attr + escaped(value) + end
}

/// `<name value="v"/>` on a line of its own.
pub open spec fn value_tag(pad: Seq<char>, name: Seq<char>, v: Seq<char>) -> Seq<char> {
    attr_tag(pad, name, " value=\""@, v, "\"/>\n"@)
}

/// `<name>text</name>` on a line of its own; `<name/>` for an empty text.
pub open spec fn string_tag(pad: Seq<char>, name: Seq<char>, v: Seq<char>) -> Seq<char> {
    if v.len() == 0 {
        empty_tag(pad, name)
    } else {
        pad + "<"@ + name + ">"@ + escaped(v) + "</"@ + name + ">\n"@
    }
}

/// A vector: its components as the attributes `x`, `y`, `z` and `w`.
pub open spec fn vector_tag(
    pad: Seq<char>,
    name: Seq<char>,
    v: Seq<u32>,
    f: Seq<(u32, Seq<char>)>,
) -> Seq<char> {
    let xy = pad + "<"@ + name + " x=\""@ + float_text(v[0], f) + "\" y=\""@ + float_text(v[1], f);
    let xyz = if v.len() > 2 {
        xy + "\" z=\""@ + float_text(v[2], f)
    } else {
        xy
    };
    let xyzw = if v.len() > 3 {
        xyz + "\" w=\""@ + float_text(v[3], f)
    } else {
        xyz
    };
    xyzw + "\"/>\n"@
}

/// The names of the first `n` hashes, parted by commas.
pub open spec fn joined_names(hashes: Seq<u32>, names: Map<u32, Seq<char>>, n: nat) -> Seq<char>
    decreases n,
{
    if n == 0 {
        Seq::empty()
    } else if n == 1 {
        crate::names::named(names, hashes[0])
    } else {
        joined_names(hashes, names, (n - 1) as nat) + ", "@ + crate::names::named(
            names,
            hashes[n - 1],
        )
    }
}

/// The first `n` cells of a table with `width` cells to a row, each row on a
/// line of its own.
pub open spec fn rows(
    pad: Seq<char>,
    cells: spec_fn(int) -> Seq<char>,
    total: nat,
    width: nat,
    n: nat,
) -> Seq<char>
    decreases n,
{
    if n == 0 {
        Seq::empty()
    } else {
        rows(pad, cells, total, width, (n - 1) as nat) + (if (n - 1) % (width as int) == 0 {
            pad
        } else {
            Seq::empty()
        }) + cells(n - 1) + (if n % width == 0 || n == total {
            "\n"@
        } else {
            " "@
        })
    }
}

/// A byte in a table of bytes.
pub open spec fn byte_cells(b: Seq<u8>) -> spec_fn(int) -> Seq<char> {
    |i: int| crate::text::hex(b[i] as nat, 2)
}

/// A number in a table of numbers.
pub open spec fn number_cell(v: ValueView, f: Seq<(u32, Seq<char>)>) -> Seq<char> {
    match v {
        ValueView::F32(bits) => float_text(bits, f),
        _ => match crate::value::integer_of(v) {
            Some(n) => crate::text::signed_decimal(n as int),
            None => Seq::empty(),
        },
    }
}

/// The numbers in a table of numbers.
pub open spec fn number_cells(items: Seq<ValueView>, f: Seq<(u32, Seq<char>)>) -> spec_fn(
    int,
) -> Seq<char> {
    |i: int| number_cell(items[i], f)
}

/// Whether a value goes in a row of numbers.
pub open spec fn is_number(v: ValueView) -> bool {
    match v {
        ValueView::Bool(_) => true,
        ValueView::I8(_) => true,
        ValueView::U8(_) => true,
        ValueView::I16(_) => true,
        ValueView::U16(_) => true,
        ValueView::I32(_) => true,
        ValueView::U32(_) => true,
        ValueView::I64(_) => true,
        ValueView::U64(_) => true,
        ValueView::F32(_) => true,
        _ => false,
    }
}

/// The `itemType` of an array without one, from its first element.
pub open spec fn raw_type(items: Seq<ValueView>) -> Option<Seq<char>> {
    if items.len() == 0 {
        None
    } else {
        match items[0] {
            ValueView::Bool(_) => Some("boolean"@),
            ValueView::I8(_) => Some("sbyte"@),
            ValueView::U8(_) => Some("byte"@),
            ValueView::I16(_) => Some("short"@),
            ValueView::U16(_) => Some("ushort"@),
            ValueView::I32(_) => Some("int"@),
            ValueView::U32(_) => Some("uint"@),
            ValueView::I64(_) => Some("long"@),
            ValueView::U64(_) => Some("long"@),
            ValueView::F32(_) => Some("float"@),
            ValueView::Vec2(_) => Some("Vector2"@),
            ValueView::Vec3(_) => Some("Vector3"@),
            ValueView::Vec4(_) => Some("Vector4"@),
            ValueView::Hash(_) => Some("Hash"@),
            ValueView::Str(_) => Some("Hash"@),
            ValueView::Enum { .. } => Some("enum"@),
            _ => None,
        }
    }
}

/// The `itemType` of an array.
pub open spec fn array_type(
    item_type: Option<u32>,
    items: Seq<ValueView>,
    names: Map<u32, Seq<char>>,
) -> Option<Seq<char>> {
    match item_type {
        Some(h) => Some(crate::names::named(names, h)),
        None => raw_type(items),
    }
}

/// One level further in.
pub open spec fn deeper(pad: Seq<char>) -> Seq<char> {
    pad + "  "@
}

/// The tag that opens a structure.
pub open spec fn struct_tag(pad: Seq<char>, tag: Seq<char>, kind: Option<Seq<char>>) -> Seq<char> {
    match kind {
        Some(t) => attr_tag(pad, tag, " type=\""@, t, "\">\n"@),
        None => open_tag(pad, tag),
    }
}

/// What names and floats a document is written with.
pub struct Style {
    pub names: Map<u32, Seq<char>>,
    pub floats: Seq<(u32, Seq<char>)>,
}

/// The members of a structure.
pub open spec fn fields_text(pad: Seq<char>, fields: Seq<(u32, ValueView)>, st: Style) -> Seq<char>
    decreases fields, 0int,
{
    if fields.len() == 0 {
        Seq::empty()
    } else {
        proof {
            assert(decreases_to!(fields => fields.last()));
            assert(decreases_to!(fields.last() => fields.last().1));
        }
        fields_text(pad, fields.drop_last(), st) + member_text(
            pad,
            crate::names::named(st.names, fields.last().0),
            fields.last().1,
            st,
        )
    }
}

/// A structure as an element.
pub open spec fn struct_text(
    pad: Seq<char>,
    tag: Seq<char>,
    kind: Option<Seq<char>>,
    fields: Seq<(u32, ValueView)>,
    st: Style,
) -> Seq<char>
    decreases fields, 1int,
{
    struct_tag(pad, tag, kind) + fields_text(deeper(pad), fields, st) + close_tag(pad, tag)
}

/// The elements of an array that is no table of numbers.
pub open spec fn items_text(
    pad: Seq<char>,
    items: Seq<ValueView>,
    typed: bool,
    st: Style,
) -> Seq<char>
    decreases items, 0int,
{
    if items.len() == 0 {
        Seq::empty()
    } else {
        let last = items.last();
        proof {
            assert(decreases_to!(items => items.last()));
            if let ValueView::Struct(s) = last {
                assert(decreases_to!(last => last->Struct_0));
                assert(decreases_to!(s => s.fields));
            }
        }
        items_text(pad, items.drop_last(), typed, st) + (match last {
            ValueView::Struct(s) => struct_text(
                pad,
                "Item"@,
                if typed {
                    Some(crate::names::named(st.names, s.type_hash))
                } else {
                    None
                },
                s.fields,
                st,
            ),
            _ => member_text(pad, "Item"@, last, st),
        })
    }
}

/// The pairs of a map.
pub open spec fn pairs_text(
    pad: Seq<char>,
    pairs: Seq<(ValueView, ValueView)>,
    st: Style,
) -> Seq<char>
    decreases pairs, 0int,
{
    if pairs.len() == 0 {
        Seq::empty()
    } else {
        proof {
            assert(decreases_to!(pairs => pairs.last()));
            assert(decreases_to!(pairs.last() => pairs.last().0));
            assert(decreases_to!(pairs.last() => pairs.last().1));
        }
        pairs_text(pad, pairs.drop_last(), st) + open_tag(pad, "Item"@) + member_text(
            deeper(pad),
            "key"@,
            pairs.last().0,
            st,
        ) + member_text(deeper(pad), "value"@, pairs.last().1, st) + close_tag(pad, "Item"@)
    }
}

/// The tag that opens an array.
pub open spec fn array_tag(
    pad: Seq<char>,
    name: Seq<char>,
    kind: Option<Seq<char>>,
    empty: bool,
) -> Seq<char> {
    match kind {
        Some(t) => attr_tag(
            pad,
            name,
            " itemType=\""@,
            t,
            if empty {
                "\"/>\n"@
            } else {
                "\">\n"@
            },
        ),
        None => if empty {
            empty_tag(pad, name)
        } else {
            open_tag(pad, name)
        },
    }
}

/// A byte array.
pub open spec fn bytes_text(pad: Seq<char>, name: Seq<char>, b: Seq<u8>) -> Seq<char> {
    if b.len() == 0 {
        pad + "<"@ + name + " itemType=\"ByteArray\"/>\n"@
    } else {
        pad + "<"@ + name + " itemType=\"ByteArray\">\n"@ + rows(
            deeper(pad),
            byte_cells(b),
            b.len(),
            32,
            b.len(),
        ) + close_tag(pad, name)
    }
}

/// A set of flags.
pub open spec fn flags_text(
    pad: Seq<char>,
    name: Seq<char>,
    bits: u32,
    set: Seq<u32>,
    st: Style,
) -> Seq<char> {
    if set.len() == 0 {
        if bits == 0 {
            empty_tag(pad, name)
        } else {
            value_tag(pad, name, crate::text::signed_decimal(bits as int))
        }
    } else {
        string_tag(pad, name, joined_names(set, st.names, set.len()))
    }
}

/// A value as an element called `name`.
pub open spec fn member_text(pad: Seq<char>, name: Seq<char>, v: ValueView, st: Style) -> Seq<char>
    decreases v, 2int,
{
    match v {
        ValueView::Null => empty_tag(pad, name),
        ValueView::Bool(b) => value_tag(
            pad,
            name,
            if b {
                "true"@
            } else {
                "false"@
            },
        ),
        ValueView::I8(n) => value_tag(pad, name, crate::text::signed_decimal(n as int)),
        ValueView::U8(n) => value_tag(pad, name, crate::text::signed_decimal(n as int)),
        ValueView::I16(n) => value_tag(pad, name, crate::text::signed_decimal(n as int)),
        ValueView::U16(n) => value_tag(pad, name, crate::text::signed_decimal(n as int)),
        ValueView::I32(n) => value_tag(pad, name, crate::text::signed_decimal(n as int)),
        ValueView::U32(n) => value_tag(pad, name, crate::text::signed_decimal(n as int)),
        ValueView::I64(n) => value_tag(pad, name, crate::text::signed_decimal(n as int)),
        ValueView::U64(n) => value_tag(pad, name, crate::text::signed_decimal(n as int)),
        ValueView::F32(bits) => value_tag(pad, name, float_text(bits, st.floats)),
        ValueView::Vec2(p) => vector_tag(pad, name, seq![p.x, p.y], st.floats),
        ValueView::Vec3(p) => vector_tag(pad, name, seq![p.x, p.y, p.z], st.floats),
        ValueView::Vec4(p) => vector_tag(pad, name, seq![p.x, p.y, p.z, p.w], st.floats),
        ValueView::Hash(h) => string_tag(
            pad,
            name,
            if h == 0 {
                Seq::empty()
            } else {
                crate::names::named(st.names, h)
            },
        ),
        ValueView::Str(s) => string_tag(pad, name, s),
        ValueView::Enum { enum_hash: _, value, name: member } => match member {
            Some(m) => string_tag(pad, name, crate::names::named(st.names, m)),
            None => value_tag(pad, name, crate::text::signed_decimal(value as int)),
        },
        ValueView::Flags { enum_hash: _, bits, names: set } => flags_text(pad, name, bits, set, st),
        ValueView::Bytes(b) => bytes_text(pad, name, b),
        ValueView::Array(a) => {
            let kind = array_type(a.item_type, a.items, st.names);
            if a.items.len() == 0 {
                array_tag(pad, name, kind, true)
            } else {
                array_tag(pad, name, kind, false) + (if (forall|i: int|
                    0 <= i < a.items.len() ==> is_number(#[trigger] a.items[i])) {
                    rows(
                        deeper(pad),
                        number_cells(a.items, st.floats),
                        a.items.len(),
                        10,
                        a.items.len(),
                    )
                } else {
                    items_text(deeper(pad), a.items, a.typed_items, st)
                }) + close_tag(pad, name)
            }
        },
        ValueView::Pairs(pairs) => if pairs.len() == 0 {
            empty_tag(pad, name)
        } else {
            open_tag(pad, name) + pairs_text(deeper(pad), pairs, st) + close_tag(pad, name)
        },
        ValueView::Struct(s) => struct_text(pad, name, None, s.fields, st),
    }
}

/// A tree as a complete document.
pub open spec fn document_text(root: ValueView, st: Style) -> Seq<char> {
    "<?xml version=\"1.0\" encoding=\"UTF-8\"?>\n"@ + (match root {
        ValueView::Struct(s) => struct_text(
            Seq::empty(),
            crate::names::named(st.names, s.type_hash),
            None,
            s.fields,
            st,
        ),
        _ => member_text(Seq::empty(), "value"@, root, st),
    })
}

// ─── writing ─────────────────────────────────────────────────────────────────

/// What writes a document.
struct Pen<'a> {
    names: &'a NameTable,
    floats: &'a FloatPrints,
}

fn push_escaped(out: &mut String, s: &str)
    ensures
        final(out)@ == old(out)@ + escaped(s@),
{
    let ghost before = out@;
    let cs = chars_of(s);
    let mut i: usize = 0;
    assert(out@ =~= before + escaped(cs@.take(0)));
    while i < cs.len()
        invariant
            i <= cs@.len(),
            before == old(out)@,
            out@ == before + escaped(cs@.take(i as int)),
        decreases cs@.len() - i,
    {
        let c = cs[i];
        let ghost had = out@;
        match c {
            '&' => out.append("&amp;"),
            '<' => out.append("&lt;"),
            '>' => out.append("&gt;"),
            '"' => out.append("&quot;"),
            _ => out.push(c),
        }
        proof {
            assert(out@ =~= had + escaped_char(c));
            assert(cs@.take(i + 1).drop_last() =~= cs@.take(i as int));
            assert(cs@.take(i + 1).last() == c);
            assert(out@ =~= before + escaped(cs@.take(i + 1)));
        }
        i += 1;
    }
    assert(cs@.take(cs@.len() as int) =~= s@);
}

fn push_attr_tag(out: &mut String, pad: &str, name: &str, attr: &str, value: &str, end: &str)
    ensures
        final(out)@ == old(out)@ + attr_tag(pad@, name@, attr@, value@, end@),
{
    let ghost before = out@;
    out.append(pad);
    out.append("<");
    out.append(name);
    out.append(attr);
    push_escaped(out, value);
    out.append(end);
    assert(out@ =~= before + attr_tag(pad@, name@, attr@, value@, end@));
}

fn push_tag(out: &mut String, pad: &str, start: &str, name: &str, end: &str)
    ensures
        final(out)@ == old(out)@ + (pad@ + start@ + name@ + end@),
{
    let ghost before = out@;
    out.append(pad);
    out.append(start);
    out.append(name);
    out.append(end);
    assert(out@ =~= before + (pad@ + start@ + name@ + end@));
}

fn push_value(out: &mut String, pad: &str, name: &str, v: &str)
    ensures
        final(out)@ == old(out)@ + value_tag(pad@, name@, v@),
{
    push_attr_tag(out, pad, name, " value=\"", v, "\"/>\n");
}

fn push_number(out: &mut String, pad: &str, name: &str, v: i64)
    ensures
        final(out)@ == old(out)@ + value_tag(pad@, name@, crate::text::signed_decimal(v as int)),
{
    let mut text = String::new();
    push_signed(&mut text, v);
    assert(text@ =~= crate::text::signed_decimal(v as int));
    push_value(out, pad, name, text.as_str());
}

fn push_unsigned(out: &mut String, pad: &str, name: &str, v: u64)
    ensures
        final(out)@ == old(out)@ + value_tag(pad@, name@, crate::text::signed_decimal(v as int)),
{
    let mut text = String::new();
    push_decimal(&mut text, v);
    assert(text@ =~= crate::text::signed_decimal(v as int));
    push_value(out, pad, name, text.as_str());
}

fn push_string(out: &mut String, pad: &str, name: &str, v: &str)
    ensures
        final(out)@ == old(out)@ + string_tag(pad@, name@, v@),
{
    let ghost before = out@;
    let cs = chars_of(v);
    if cs.len() == 0 {
        push_tag(out, pad, "<", name, "/>\n");
    } else {
        out.append(pad);
        out.append("<");
        out.append(name);
        out.append(">");
        push_escaped(out, v);
        out.append("</");
        out.append(name);
        out.append(">\n");
        assert(out@ =~= before + string_tag(pad@, name@, v@));
    }
}

fn further(pad: &str) -> (r: String)
    ensures
        r@ == deeper(pad@),
{
    let mut r = pad.to_string();
    r.append("  ");
    r
}

fn push_bytes(out: &mut String, pad: &str, name: &str, b: &Vec<u8>)
    ensures
        final(out)@ == old(out)@ + bytes_text(pad@, name@, b@),
{
    let ghost before = out@;
    if b.len() == 0 {
        push_tag(out, pad, "<", name, " itemType=\"ByteArray\"/>\n");
        return;
    }
    push_tag(out, pad, "<", name, " itemType=\"ByteArray\">\n");
    let inner = further(pad);
    let ghost start = out@;
    let ghost cells = byte_cells(b@);
    let mut i: usize = 0;
    assert(out@ =~= start + rows(inner@, cells, b@.len(), 32, 0));
    while i < b.len()
        invariant
            i <= b@.len(),
            cells == byte_cells(b@),
            out@ == start + rows(inner@, cells, b@.len(), 32, i as nat),
        decreases b@.len() - i,
    {
        let ghost had = out@;
        if i % 32 == 0 {
            out.append(inner.as_str());
        }
        push_hex(out, b[i] as u64, 2);
        i += 1;
        if i % 32 == 0 || i == b.len() {
            out.append("\n");
        } else {
            out.append(" ");
        }
        proof {
            assert(cells(i - 1) == crate::text::hex(b@[i - 1] as nat, 2));
            assert(out@ =~= start + rows(inner@, cells, b@.len(), 32, i as nat));
        }
    }
    push_tag(out, pad, "</", name, ">\n");
    assert(out@ =~= before + bytes_text(pad@, name@, b@));
}

fn raw_item_type(a: &MetaArray) -> (r: Option<&'static str>)
    ensures
        match r {
            Some(t) => raw_type(a@.items) == Some(t@),
            None => raw_type(a@.items) is None,
        },
{
    if a.items.len() == 0 {
        return None;
    }
    assert(a@.items[0] == a.items@[0]@);
    match &a.items[0] {
        MetaValue::Bool(_) => Some("boolean"),
        MetaValue::I8(_) => Some("sbyte"),
        MetaValue::U8(_) => Some("byte"),
        MetaValue::I16(_) => Some("short"),
        MetaValue::U16(_) => Some("ushort"),
        MetaValue::I32(_) => Some("int"),
        MetaValue::U32(_) => Some("uint"),
        MetaValue::I64(_) | MetaValue::U64(_) => Some("long"),
        MetaValue::F32(_) => Some("float"),
        MetaValue::Vec2(_) => Some("Vector2"),
        MetaValue::Vec3(_) => Some("Vector3"),
        MetaValue::Vec4(_) => Some("Vector4"),
        MetaValue::Hash(_) | MetaValue::Str(_) => Some("Hash"),
        MetaValue::Enum { .. } => Some("enum"),
        _ => None,
    }
}

fn is_number_value(v: &MetaValue) -> (r: bool)
    ensures
        r == is_number(v@),
{
    match v {
        MetaValue::Bool(_) => true,
        MetaValue::I8(_) => true,
        MetaValue::U8(_) => true,
        MetaValue::I16(_) => true,
        MetaValue::U16(_) => true,
        MetaValue::I32(_) => true,
        MetaValue::U32(_) => true,
        MetaValue::I64(_) => true,
        MetaValue::U64(_) => true,
        MetaValue::F32(_) => true,
        _ => false,
    }
}

fn all_numbers(items: &Vec<MetaValue>) -> (r: bool)
    ensures
        r == (forall|i: int|
            0 <= i < items@.len() ==> is_number(
                #[trigger] crate::value::values_view(items@)[i],
            )),
{
    let ghost views = crate::value::values_view(items@);
    let mut i: usize = 0;
    while i < items.len()
        invariant
            i <= items@.len(),
            views == crate::value::values_view(items@),
            forall|k: int| 0 <= k < i ==> is_number(#[trigger] views[k]),
        decreases items@.len() - i,
    {
        assert(views[i as int] == items@[i as int]@);
        if !is_number_value(&items[i]) {
            return false;
        }
        i += 1;
    }
    true
}

impl<'a> Pen<'a> {
    spec fn style(&self) -> Style {
        Style { names: self.names@, floats: self.floats@ }
    }

    fn push_vector(&self, out: &mut String, pad: &str, name: &str, v: &[u32])
        requires
            2 <= v@.len() <= 4,
        ensures
            final(out)@ == old(out)@ + vector_tag(pad@, name@, v@, self.floats@),
    {
        let ghost before = out@;
        out.append(pad);
        out.append("<");
        out.append(name);
        out.append(" x=\"");
        self.floats.push_float(out, v[0]);
        out.append("\" y=\"");
        self.floats.push_float(out, v[1]);
        if v.len() > 2 {
            out.append("\" z=\"");
            self.floats.push_float(out, v[2]);
        }
        if v.len() > 3 {
            out.append("\" w=\"");
            self.floats.push_float(out, v[3]);
        }
        out.append("\"/>\n");
        assert(out@ =~= before + vector_tag(pad@, name@, v@, self.floats@));
    }

    fn push_flags(&self, out: &mut String, pad: &str, name: &str, bits: u32, set: &Vec<u32>)
        ensures
            final(out)@ == old(out)@ + flags_text(pad@, name@, bits, set@, self.style()),
    {
        if set.len() == 0 {
            if bits == 0 {
                push_tag(out, pad, "<", name, "/>\n");
            } else {
                push_unsigned(out, pad, name, bits as u64);
            }
            return;
        }
        let mut joined = self.names.resolve(set[0]);
        let mut i: usize = 1;
        while i < set.len()
            invariant
                1 <= i <= set@.len(),
                joined@ == joined_names(set@, self.names@, i as nat),
            decreases set@.len() - i,
        {
            let ghost had = joined@;
            let name = self.names.resolve(set[i]);
            joined.append(", ");
            joined.append(name.as_str());
            assert(joined@ =~= had + ", "@ + name@);
            i += 1;
        }
        push_string(out, pad, name, joined.as_str());
    }

    fn push_cells(&self, out: &mut String, inner: &str, items: &Vec<MetaValue>)
        ensures
            final(out)@ == old(out)@ + rows(
                inner@,
                number_cells(crate::value::values_view(items@), self.floats@),
                items@.len(),
                10,
                items@.len(),
            ),
    {
        let ghost start = out@;
        let ghost views = crate::value::values_view(items@);
        let ghost cells = number_cells(views, self.floats@);
        let mut i: usize = 0;
        assert(out@ =~= start + rows(inner@, cells, items@.len(), 10, 0));
        while i < items.len()
            invariant
                i <= items@.len(),
                start == old(out)@,
                views == crate::value::values_view(items@),
                cells == number_cells(views, self.floats@),
                out@ == start + rows(inner@, cells, items@.len(), 10, i as nat),
            decreases items@.len() - i,
        {
            let ghost had = out@;
            if i % 10 == 0 {
                out.append(inner);
            }
            let ghost front = out@;
            match &items[i] {
                MetaValue::F32(bits) => {
                    self.floats.push_float(out, *bits);
                },
                other => {
                    if let Some(n) = other.as_i64() {
                        push_signed(out, n);
                    }
                },
            }
            assert(views[i as int] == items@[i as int]@);
            assert(out@ =~= front + number_cell(views[i as int], self.floats@));
            i += 1;
            if i % 10 == 0 || i == items.len() {
                out.append("\n");
            } else {
                out.append(" ");
            }
            proof {
                assert(cells(i - 1) == number_cell(views[i - 1], self.floats@));
                assert(out@ =~= start + rows(inner@, cells, items@.len(), 10, i as nat));
            }
        }
    }

    fn push_fields(&self, out: &mut String, inner: &str, fields: &Vec<(u32, MetaValue)>)
        ensures
            final(out)@ == old(out)@ + fields_text(
                inner@,
                crate::value::fields_view(fields@),
                self.style(),
            ),
        decreases fields@, 0int,
    {
        let ghost start = out@;
        let ghost views = crate::value::fields_view(fields@);
        let mut i: usize = 0;
        assert(out@ =~= start + fields_text(inner@, views.take(0), self.style()));
        while i < fields.len()
            invariant
                i <= fields@.len(),
                start == old(out)@,
                views == crate::value::fields_view(fields@),
                out@ == start + fields_text(inner@, views.take(i as int), self.style()),
            decreases fields@.len() - i,
        {
            proof {
                assert(decreases_to!(fields@ => fields@[i as int]));
                assert(decreases_to!(fields@[i as int] => fields@[i as int].1));
            }
            let ghost had = out@;
            let name = self.names.resolve(fields[i].0);
            self.push_member(out, inner, name.as_str(), &fields[i].1);
            proof {
                assert(views[i as int] == (fields@[i as int].0, fields@[i as int].1@));
                assert(views.take(i + 1).drop_last() =~= views.take(i as int));
                assert(views.take(i + 1).last() == views[i as int]);
                assert(out@ =~= start + fields_text(inner@, views.take(i + 1), self.style()));
            }
            i += 1;
        }
        assert(views.take(views.len() as int) =~= views);
    }

    fn push_struct(
        &self,
        out: &mut String,
        pad: &str,
        tag: &str,
        kind: Option<&str>,
        fields: &Vec<(u32, MetaValue)>,
    )
        ensures
            final(out)@ == old(out)@ + struct_text(
                pad@,
                tag@,
                opt_text(kind),
                crate::value::fields_view(fields@),
                self.style(),
            ),
        decreases fields@, 1int,
    {
        let ghost before = out@;
        match kind {
            Some(t) => push_attr_tag(out, pad, tag, " type=\"", t, "\">\n"),
            None => push_tag(out, pad, "<", tag, ">\n"),
        }
        let inner = further(pad);
        self.push_fields(out, inner.as_str(), fields);
        push_tag(out, pad, "</", tag, ">\n");
        assert(out@ =~= before + struct_text(
            pad@,
            tag@,
            opt_text(kind),
            crate::value::fields_view(fields@),
            self.style(),
        ));
    }

    fn push_item(&self, out: &mut String, inner: &str, item: &MetaValue, typed: bool)
        ensures
            final(out)@ == old(out)@ + item_text(inner@, item@, typed, self.style()),
        decreases item, 3int,
    {
        match item {
            MetaValue::Struct(s) => {
                proof {
                    assert(decreases_to!(item => item->Struct_0));
                    assert(decreases_to!(s => s.fields));
                    assert(decreases_to!(s.fields => s.fields@));
                    assert(crate::value::fields_view(s.fields@) =~= s@.fields);
                    assert(item@ == ValueView::Struct(s@));
                }
                if typed {
                    let kind = self.names.resolve(s.type_hash);
                    self.push_struct(out, inner, "Item", Some(kind.as_str()), &s.fields);
                } else {
                    self.push_struct(out, inner, "Item", None, &s.fields);
                }
            },
            other => self.push_member(out, inner, "Item", other),
        }
    }

    fn push_items(&self, out: &mut String, inner: &str, items: &Vec<MetaValue>, typed: bool)
        ensures
            final(out)@ == old(out)@ + items_text(
                inner@,
                crate::value::values_view(items@),
                typed,
                self.style(),
            ),
        decreases items@, 4int,
    {
        let ghost start = out@;
        let ghost views = crate::value::values_view(items@);
        let mut i: usize = 0;
        assert(out@ =~= start + items_text(inner@, views.take(0), typed, self.style()));
        while i < items.len()
            invariant
                i <= items@.len(),
                start == old(out)@,
                views == crate::value::values_view(items@),
                out@ == start + items_text(inner@, views.take(i as int), typed, self.style()),
            decreases items@.len() - i,
        {
            assert(decreases_to!(items@ => items@[i as int]));
            let ghost had = out@;
            self.push_item(out, inner, &items[i], typed);
            proof {
                assert(views[i as int] == items@[i as int]@);
                assert(views.take(i + 1).drop_last() =~= views.take(i as int));
                assert(views.take(i + 1).last() == views[i as int]);
                assert(out@ =~= start + items_text(
                    inner@,
                    views.take(i + 1),
                    typed,
                    self.style(),
                ));
            }
            i += 1;
        }
        assert(views.take(views.len() as int) =~= views);
    }

    fn push_pairs(&self, out: &mut String, inner: &str, pairs: &Vec<(MetaValue, MetaValue)>)
        ensures
            final(out)@ == old(out)@ + pairs_text(
                inner@,
                crate::value::pairs_view(pairs@),
                self.style(),
            ),
        decreases pairs@, 0int,
    {
        let ghost start = out@;
        let ghost views = crate::value::pairs_view(pairs@);
        let innermost = further(inner);
        let mut i: usize = 0;
        assert(out@ =~= start + pairs_text(inner@, views.take(0), self.style()));
        while i < pairs.len()
            invariant
                i <= pairs@.len(),
                start == old(out)@,
                innermost@ == deeper(inner@),
                views == crate::value::pairs_view(pairs@),
                out@ == start + pairs_text(inner@, views.take(i as int), self.style()),
            decreases pairs@.len() - i,
        {
            proof {
                assert(decreases_to!(pairs@ => pairs@[i as int]));
                assert(decreases_to!(pairs@[i as int] => pairs@[i as int].0));
                assert(decreases_to!(pairs@[i as int] => pairs@[i as int].1));
            }
            let ghost had = out@;
            push_tag(out, inner, "<", "Item", ">\n");
            self.push_member(out, innermost.as_str(), "key", &pairs[i].0);
            self.push_member(out, innermost.as_str(), "value", &pairs[i].1);
            push_tag(out, inner, "</", "Item", ">\n");
            proof {
                assert(views[i as int] == (pairs@[i as int].0@, pairs@[i as int].1@));
                assert(views.take(i + 1).drop_last() =~= views.take(i as int));
                assert(views.take(i + 1).last() == views[i as int]);
                assert(out@ =~= start + pairs_text(inner@, views.take(i + 1), self.style()));
            }
            i += 1;
        }
        assert(views.take(views.len() as int) =~= views);
    }

    fn push_array(&self, out: &mut String, pad: &str, name: &str, a: &MetaArray)
        ensures
            final(out)@ == old(out)@ + member_text(
                pad@,
                name@,
                ValueView::Array(a@),
                self.style(),
            ),
        decreases a, 0int,
    {
        let ghost before = out@;
        let ghost st = self.style();
        let ghost kind = array_type(a@.item_type, a@.items, st.names);
        assert(crate::value::values_view(a.items@) =~= a@.items);
        let named: Option<String> = match a.item_type {
            Some(h) => Some(self.names.resolve(h)),
            None => match raw_item_type(a) {
                Some(t) => Some(t.to_string()),
                None => None,
            },
        };
        let empty = a.items.len() == 0;
        match &named {
            Some(t) => push_attr_tag(
                out,
                pad,
                name,
                " itemType=\"",
                t.as_str(),
                if empty {
                    "\"/>\n"
                } else {
                    "\">\n"
                },
            ),
            None => push_tag(
                out,
                pad,
                "<",
                name,
                if empty {
                    "/>\n"
                } else {
                    ">\n"
                },
            ),
        }
        assert(out@ == before + array_tag(pad@, name@, kind, empty));
        if empty {
            return;
        }
        let ghost opened = out@;
        let inner = further(pad);
        if all_numbers(&a.items) {
            self.push_cells(out, inner.as_str(), &a.items);
        } else {
            proof {
                assert(decreases_to!(a => a.items));
                assert(decreases_to!(a.items => a.items@));
            }
            self.push_items(out, inner.as_str(), &a.items, a.typed_items);
        }
        push_tag(out, pad, "</", name, ">\n");
        assert(out@ =~= before + member_text(pad@, name@, ValueView::Array(a@), st));
    }

    fn push_member(&self, out: &mut String, pad: &str, name: &str, value: &MetaValue)
        ensures
            final(out)@ == old(out)@ + member_text(pad@, name@, value@, self.style()),
        decreases value, 2int,
    {
        let ghost before = out@;
        match value {
            MetaValue::Null => push_tag(out, pad, "<", name, "/>\n"),
            MetaValue::Bool(b) => push_value(
                out,
                pad,
                name,
                if *b {
                    "true"
                } else {
                    "false"
                },
            ),
            MetaValue::I8(v) => push_number(out, pad, name, *v as i64),
            MetaValue::U8(v) => push_number(out, pad, name, *v as i64),
            MetaValue::I16(v) => push_number(out, pad, name, *v as i64),
            MetaValue::U16(v) => push_number(out, pad, name, *v as i64),
            MetaValue::I32(v) => push_number(out, pad, name, *v as i64),
            MetaValue::U32(v) => push_number(out, pad, name, *v as i64),
            MetaValue::I64(v) => push_number(out, pad, name, *v),
            MetaValue::U64(v) => push_unsigned(out, pad, name, *v),
            MetaValue::F32(v) => {
                let text = float(*v, self.floats);
                push_value(out, pad, name, text.as_str());
            },
            MetaValue::Vec2(v) => {
                let c: [u32; 2] = [v.x, v.y];
                assert(c@ =~= seq![v.x, v.y]);
                self.push_vector(out, pad, name, &c);
            },
            MetaValue::Vec3(v) => {
                let c: [u32; 3] = [v.x, v.y, v.z];
                assert(c@ =~= seq![v.x, v.y, v.z]);
                self.push_vector(out, pad, name, &c);
            },
            MetaValue::Vec4(v) => {
                let c: [u32; 4] = [v.x, v.y, v.z, v.w];
                assert(c@ =~= seq![v.x, v.y, v.z, v.w]);
                self.push_vector(out, pad, name, &c);
            },
            MetaValue::Hash(h) => {
                let text = if *h == 0 {
                    String::new()
                } else {
                    self.names.resolve(*h)
                };
                push_string(out, pad, name, text.as_str());
            },
            MetaValue::Str(s) => push_string(out, pad, name, s.as_str()),
            MetaValue::Enum { value: number, name: member, .. } => match member {
                Some(m) => {
                    let text = self.names.resolve(*m);
                    push_string(out, pad, name, text.as_str());
                },
                None => push_number(out, pad, name, *number as i64),
            },
            MetaValue::Flags { bits, names: set, .. } => self.push_flags(out, pad, name, *bits, set),
            MetaValue::Bytes(b) => push_bytes(out, pad, name, b),
            MetaValue::Array(a) => {
                proof {
                    assert(decreases_to!(value => value->Array_0));
                    assert(value@ == ValueView::Array(a@));
                }
                self.push_array(out, pad, name, a);
            },
            MetaValue::Pairs(pairs) => {
                proof {
                    assert(crate::value::pairs_view(pairs@) =~= value@->Pairs_0);
                    assert(decreases_to!(value => value->Pairs_0));
                    assert(decreases_to!(pairs => pairs@));
                }
                if pairs.len() == 0 {
                    push_tag(out, pad, "<", name, "/>\n");
                } else {
                    push_tag(out, pad, "<", name, ">\n");
                    let inner = further(pad);
                    self.push_pairs(out, inner.as_str(), pairs);
                    push_tag(out, pad, "</", name, ">\n");
                    assert(out@ =~= before + member_text(pad@, name@, value@, self.style()));
                }
            },
            MetaValue::Struct(s) => {
                proof {
                    assert(value@ == ValueView::Struct(s@));
                    assert(crate::value::fields_view(s.fields@) =~= s@.fields);
                    assert(decreases_to!(value => value->Struct_0));
                    assert(decreases_to!(s => s.fields));
                    assert(decreases_to!(s.fields => s.fields@));
                }
                self.push_struct(out, pad, name, None, &s.fields);
            },
        }
    }
}

/// An element of an array that is no table of numbers.
pub open spec fn item_text(pad: Seq<char>, v: ValueView, typed: bool, st: Style) -> Seq<char> {
    match v {
        ValueView::Struct(s) => struct_text(
            pad,
            "Item"@,
            if typed {
                Some(crate::names::named(st.names, s.type_hash))
            } else {
                None
            },
            s.fields,
            st,
        ),
        _ => member_text(pad, "Item"@, v, st),
    }
}

/// The text behind an optional string.
pub open spec fn opt_text(s: Option<&str>) -> Option<Seq<char>> {
    match s {
        Some(t) => Some(t@),
        None => None,
    }
}

/// Serializes `root` as a complete XML document.
pub fn to_xml(root: &MetaValue, names: &NameTable, floats: &FloatPrints) -> (r: String)
    ensures
        r@ == document_text(root@, (Style { names: names@, floats: floats@ })),
{
    let pen = Pen { names, floats };
    let mut out = "<?xml version=\"1.0\" encoding=\"UTF-8\"?>\n".to_string();
    let ghost head = out@;
    let none = String::new();
    assert(none@ =~= Seq::<char>::empty());
    match root {
        MetaValue::Struct(s) => {
            let name = names.resolve(s.type_hash);
            proof {
                assert(root@ == ValueView::Struct(s@));
                assert(crate::value::fields_view(s.fields@) =~= s@.fields);
            }
            pen.push_struct(&mut out, none.as_str(), name.as_str(), None, &s.fields);
        },
        other => pen.push_member(&mut out, none.as_str(), "value", other),
    }
    out
}

// ─── documents ───────────────────────────────────────────────────────────────

/// An attribute of an element.
#[derive(Debug, PartialEq, Eq)]
pub struct XmlAttribute {
    /// The URI of its namespace, where it has one.
    pub namespace: Option<String>,
    pub name: String,
    pub value: String,
}

/// A node of a document, in a list that holds every node in the order in
/// which it starts. The first is the document itself.
#[derive(Debug, PartialEq, Eq)]
pub struct XmlNode {
    /// The number of the node above.
    pub parent: usize,
    /// Whether the node is an element.
    pub element: bool,
    /// The local name of an element.
    pub tag: String,
    pub attributes: Vec<XmlAttribute>,
    /// The text that an element starts with, where it starts with one.
    pub text: Option<String>,
}

/// The model of an [`XmlAttribute`].
#[verifier::ext_equal]
pub struct XmlAttributeView {
    pub namespace: Option<Seq<char>>,
    pub name: Seq<char>,
    pub value: Seq<char>,
}

/// The model of an [`XmlNode`].
#[verifier::ext_equal]
pub struct XmlNodeView {
    pub parent: int,
    pub element: bool,
    pub tag: Seq<char>,
    pub attributes: Seq<XmlAttributeView>,
    pub text: Option<Seq<char>>,
}

impl View for XmlAttribute {
    type V = XmlAttributeView;

    open spec fn view(&self) -> XmlAttributeView {
        XmlAttributeView {
            namespace: crate::resource::text_of(self.namespace),
            name: self.name@,
            value: self.value@,
        }
    }
}

impl View for XmlNode {
    type V = XmlNodeView;

    open spec fn view(&self) -> XmlNodeView {
        XmlNodeView {
            parent: self.parent as int,
            element: self.element,
            tag: self.tag@,
            attributes: Seq::new(self.attributes@.len(), |i: int| self.attributes@[i]@),
            text: crate::resource::text_of(self.text),
        }
    }
}

/// The models of a list of nodes.
pub open spec fn nodes_view(s: Seq<XmlNode>) -> Seq<XmlNodeView> {
    Seq::new(s.len(), |i: int| s[i]@)
}

/// The model of an optional document.
pub open spec fn document_view(r: Option<Vec<XmlNode>>) -> Option<Seq<XmlNodeView>> {
    match r {
        Some(v) => Some(nodes_view(v@)),
        None => None,
    }
}

/// The nodes of the document that a text holds, none where it is malformed:
/// what `roxmltree::Document::parse` makes of it.
pub uninterp spec fn parsed_nodes(text: Seq<char>) -> Option<Seq<XmlNodeView>>;

/// `roxmltree::Document::parse` and `Document::descendants`, each node with
/// its `parent`, `is_element`, `tag_name`, `attributes` and `text`. The
/// nodes depend on the text alone.
#[verifier::external_body]
fn parse_document(text: &str) -> (r: Option<Vec<XmlNode>>)
    ensures
        document_view(r) == parsed_nodes(text@),
{
    let doc = roxmltree::Document::parse(text).ok()?;
    Some(doc.descendants().map(|n| XmlNode {
        parent: n.parent().map_or(0, |p| p.id().get_usize()),
        element: n.is_element(),
        tag: n.tag_name().name().to_string(),
        text: n.text().map(String::from),
        attributes: n.attributes().map(|a| XmlAttribute {
            namespace: a.namespace().map(String::from),
            name: a.name().to_string(),
            value: a.value().to_string(),
        }).collect(),
    }).collect())
}

// ─── what a document says ────────────────────────────────────────────────────

/// The value of the first attribute of that name, from `i` on, that is in no
/// namespace.
pub open spec fn attribute_from(attributes: Seq<XmlAttributeView>, name: Seq<char>, i: int) -> Option<
    Seq<char>,
>
    decreases attributes.len() - i,
{
    if i >= attributes.len() {
        None
    } else if attributes[i].namespace is None && attributes[i].name == name {
        Some(attributes[i].value)
    } else {
        attribute_from(attributes, name, i + 1)
    }
}

/// The value of a node's attribute.
pub open spec fn attribute_of(n: XmlNodeView, name: Seq<char>) -> Option<Seq<char>> {
    attribute_from(n.attributes, name, 0)
}

/// Whether node `j` is an element right under node `i`.
pub open spec fn is_child(nodes: Seq<XmlNodeView>, i: int, j: int) -> bool {
    nodes[j].element && nodes[j].parent == i && i < j
}

/// The elements right under node `i`, among the first `n` nodes.
pub open spec fn children_among(nodes: Seq<XmlNodeView>, i: int, n: nat) -> Seq<int>
    decreases n,
{
    if n == 0 {
        Seq::empty()
    } else if is_child(nodes, i, n - 1) {
        children_among(nodes, i, (n - 1) as nat).push(n - 1)
    } else {
        children_among(nodes, i, (n - 1) as nat)
    }
}

/// The elements right under node `i`.
pub open spec fn children_of(nodes: Seq<XmlNodeView>, i: int) -> Seq<int> {
    children_among(nodes, i, nodes.len())
}

/// A value without quotes around it: a boolean, an integer, a `0x` number, a
/// float, or text.
pub open spec fn scalar_of(text: Seq<char>, floats: crate::coerce::Floats) -> ValueView {
    let v = crate::chars::trimmed(text);
    let number = crate::chars::signed(v, false);
    let lower = crate::chars::starts(v, "0x"@);
    let upper = !lower && crate::chars::starts(v, "0X"@);
    let hex = if lower {
        crate::chars::unsigned(v.skip("0x"@.len() as int), true, 0xFFFF_FFFF)
    } else if upper {
        crate::chars::unsigned(v.skip("0X"@.len() as int), true, 0xFFFF_FFFF)
    } else {
        None
    };
    if v == "true"@ {
        ValueView::Bool(true)
    } else if v == "false"@ {
        ValueView::Bool(false)
    } else if number is Some {
        if i32::MIN <= number->0 <= i32::MAX {
            ValueView::I32(number->0 as i32)
        } else {
            ValueView::I64(number->0 as i64)
        }
    } else if hex is Some {
        ValueView::U32(hex->0 as u32)
    } else {
        match crate::coerce::single_of(floats, v) {
            Some(bits) => ValueView::F32(bits),
            None => ValueView::Str(v),
        }
    }
}

/// A component of a vector: 0 where the text writes no float.
pub open spec fn component_of(text: Seq<char>, floats: crate::coerce::Floats) -> u32 {
    match crate::coerce::single_of(floats, crate::chars::trimmed(text)) {
        Some(bits) => bits,
        None => 0,
    }
}

/// The bytes among the first `n` words, each a hexadecimal number.
pub open spec fn bytes_among(words: Seq<Seq<char>>, n: nat) -> Seq<u8>
    decreases n,
{
    if n == 0 {
        Seq::empty()
    } else {
        match crate::chars::unsigned(words[n - 1], true, 0xFF) {
            Some(b) => bytes_among(words, (n - 1) as nat).push(b as u8),
            None => bytes_among(words, (n - 1) as nat),
        }
    }
}

/// The members of the map formats that only ever hold items: an empty
/// element of that name is an empty list, of any other an empty string.
pub open spec fn is_list_name(s: Seq<char>) -> bool {
    s == "entities"@ || s == "extensions"@ || s == "archetypes"@ || s == "rooms"@ || s
        == "portals"@ || s == "entitySets"@ || s == "attachedObjects"@ || s == "locations"@ || s
        == "containerLods"@ || s == "boxOccluders"@ || s == "occludeModels"@ || s
        == "physicsDictionaries"@ || s == "timeCycleModifiers"@ || s == "carGenerators"@ || s
        == "instances"@ || s == "corners"@ || s == "MapDataGroups"@ || s == "HDTxdBindingArray"@
        || s == "imapDependencies"@ || s == "imapDependencies_2"@ || s == "itypDependencies_2"@ || s
        == "Interiors"@ || s == "Bounds"@ || s == "WeatherTypes"@ || s == "itypDepArray"@ || s
        == "dependencies"@ || s == "compositeEntityTypes"@ || s == "defaultEntitySets"@ || s
        == "Effects"@
}

/// The value of an element that has an attribute to say it.
pub open spec fn attribute_value(n: XmlNodeView, floats: crate::coerce::Floats) -> Option<
    ValueView,
> {
    let x = attribute_of(n, "x"@);
    let y = attribute_of(n, "y"@);
    let z = attribute_of(n, "z"@);
    let w = attribute_of(n, "w"@);
    if attribute_of(n, "value"@) is Some {
        Some(scalar_of(attribute_of(n, "value"@)->0, floats))
    } else if x is Some && y is Some {
        let (a, b) = (component_of(x->0, floats), component_of(y->0, floats));
        Some(
            if z is None {
                ValueView::Vec2(Vec2 { x: a, y: b })
            } else {
                let c = component_of(z->0, floats);
                match w {
                    Some(d) => ValueView::Vec4(
                        Vec4 { x: a, y: b, z: c, w: component_of(d, floats) },
                    ),
                    None => ValueView::Vec3(Vec3 { x: a, y: b, z: c }),
                }
            },
        )
    } else {
        None
    }
}

/// The value of an element with no elements in it.
pub open spec fn leaf_value(n: XmlNodeView, floats: crate::coerce::Floats) -> ValueView {
    let text = match n.text {
        Some(t) => crate::chars::trimmed(t),
        None => Seq::empty(),
    };
    let words = crate::chars::words(text, false);
    match attribute_of(n, "itemType"@) {
        Some(t) => if t == "ByteArray"@ {
            ValueView::Bytes(bytes_among(words, words.len()))
        } else {
            ValueView::Array(
                ArrayView {
                    item_type: None,
                    typed_items: false,
                    items: Seq::new(words.len(), |i: int| scalar_of(words[i], floats)),
                },
            )
        },
        None => if text.len() == 0 && attribute_of(n, "type"@) is None && n.tag != "Item"@
            && is_list_name(n.tag) {
            ValueView::Array(
                ArrayView { item_type: None, typed_items: false, items: Seq::empty() },
            )
        } else {
            ValueView::Str(text)
        },
    }
}

/// Whether all of some elements are called `Item`.
pub open spec fn all_items(nodes: Seq<XmlNodeView>, children: Seq<int>) -> bool {
    forall|k: int| 0 <= k < children.len() ==> (#[trigger] nodes[children[k]]).tag == "Item"@
}

/// Whether any of some elements has a `type`.
pub open spec fn any_typed(nodes: Seq<XmlNodeView>, children: Seq<int>) -> bool {
    exists|k: int|
        0 <= k < children.len() && attribute_of(#[trigger] nodes[children[k]], "type"@) is Some
}

/// The values of the first `k` elements under node `i`, with the hashes of
/// their names.
pub open spec fn child_values(
    nodes: Seq<XmlNodeView>,
    i: int,
    k: nat,
    floats: crate::coerce::Floats,
) -> Seq<(u32, ValueView)>
    decreases nodes.len() - i, k,
{
    if k == 0 {
        Seq::empty()
    } else {
        let c = children_of(nodes, i)[k - 1];
        let before = child_values(nodes, i, (k - 1) as nat, floats);
        if i < c < nodes.len() {
            before.push((crate::coerce::text_hash(nodes[c].tag), element_value(nodes, c, floats)))
        } else {
            before
        }
    }
}

/// The value of element `i`.
pub open spec fn element_value(
    nodes: Seq<XmlNodeView>,
    i: int,
    floats: crate::coerce::Floats,
) -> ValueView
    decreases nodes.len() - i, nodes.len() + 1,
{
    let n = nodes[i];
    let children = children_of(nodes, i);
    match attribute_value(n, floats) {
        Some(v) => v,
        None => if children.len() == 0 || children.len() > nodes.len() {
            leaf_value(n, floats)
        } else {
            let values = child_values(nodes, i, children.len(), floats);
            if all_items(nodes, children) {
                ValueView::Array(
                    ArrayView {
                        item_type: match attribute_of(n, "itemType"@) {
                            Some(t) => Some(crate::coerce::text_hash(t)),
                            None => None,
                        },
                        typed_items: any_typed(nodes, children),
                        items: Seq::new(values.len(), |k: int| values[k].1),
                    },
                )
            } else {
                ValueView::Struct(
                    StructView {
                        type_hash: crate::coerce::text_hash(
                            match attribute_of(n, "type"@) {
                                Some(t) => t,
                                None => n.tag,
                            },
                        ),
                        fields: values,
                    },
                )
            }
        },
    }
}

/// Why a document could not be read.
#[derive(Debug, Clone, Copy, PartialEq, Eq, Structural)]
pub enum XmlError {
    Malformed,
}

impl XmlError {
    /// The error in words.
    pub open spec fn text(&self) -> Seq<char> {
        "malformed XML"@
    }

    /// The error in words.
    pub fn message(&self) -> (r: String)
        ensures
            r@ == self.text(),
    {
        "malformed XML".to_string()
    }
}

/// The tree that a document's nodes hold: that of its root element.
pub open spec fn tree_of(nodes: Option<Seq<XmlNodeView>>, floats: crate::coerce::Floats) -> Result<
    ValueView,
    XmlError,
> {
    match nodes {
        None => Err(XmlError::Malformed),
        Some(n) => {
            let top = children_of(n, 0);
            if top.len() == 0 {
                Err(XmlError::Malformed)
            } else {
                Ok(element_value(n, top[0], floats))
            }
        },
    }
}

// ─── reading ─────────────────────────────────────────────────────────────────

proof fn lemma_children(nodes: Seq<XmlNodeView>, i: int, n: nat)
    requires
        n <= nodes.len(),
    ensures
        children_among(nodes, i, n).len() <= n,
        forall|k: int|
            0 <= k < children_among(nodes, i, n).len() ==> i < #[trigger] children_among(
                nodes,
                i,
                n,
            )[k] < n,
    decreases n,
{
    if n > 0 {
        lemma_children(nodes, i, (n - 1) as nat);
    }
}

/// The elements under each node.
struct Children {
    lists: Vec<Vec<usize>>,
}

spec fn ints(s: Seq<usize>) -> Seq<int> {
    Seq::new(s.len(), |k: int| s[k] as int)
}

impl Children {
    spec fn fits(&self, nodes: Seq<XmlNodeView>) -> bool {
        &&& self.lists@.len() == nodes.len()
        &&& forall|i: int|
            0 <= i < nodes.len() ==> ints((#[trigger] self.lists@[i])@) == children_of(nodes, i)
    }

    fn of(nodes: &Vec<XmlNode>) -> (r: Self)
        ensures
            r.fits(nodes_view(nodes@)),
    {
        let ghost views = nodes_view(nodes@);
        let mut lists: Vec<Vec<usize>> = Vec::new();
        let mut i: usize = 0;
        while i < nodes.len()
            invariant
                i <= nodes@.len(),
                lists@.len() == i,
                forall|k: int| 0 <= k < i ==> (#[trigger] lists@[k])@ == Seq::<usize>::empty(),
            decreases nodes@.len() - i,
        {
            lists.push(Vec::new());
            i += 1;
        }
        assert forall|k: int| 0 <= k < views.len() implies ints((#[trigger] lists@[k])@)
            == children_among(views, k, 0) by {
            assert(ints(lists@[k]@) =~= Seq::<int>::empty());
        }
        let mut j: usize = 0;
        while j < nodes.len()
            invariant
                j <= nodes@.len(),
                views == nodes_view(nodes@),
                lists@.len() == nodes@.len(),
                forall|k: int|
                    0 <= k < views.len() ==> ints((#[trigger] lists@[k])@) == children_among(
                        views,
                        k,
                        j as nat,
                    ),
            decreases nodes@.len() - j,
        {
            let parent = nodes[j].parent;
            assert(views[j as int] == nodes@[j as int]@);
            let ghost had = lists@;
            if nodes[j].element && parent < j {
                lists[parent].push(j);
                assert(ints(lists@[parent as int]@) =~= ints(had[parent as int]@).push(j as int));
            }
            assert forall|k: int| 0 <= k < views.len() implies ints((#[trigger] lists@[k])@)
                == children_among(views, k, (j + 1) as nat) by {
                assert(ints(had[k]@) == children_among(views, k, j as nat));
            }
            j += 1;
        }
        Children { lists }
    }
}

impl XmlNode {
    fn attribute(&self, name: &str) -> (r: Option<&str>)
        ensures
            opt_text(r) == attribute_of(self@, name@),
    {
        let want = chars_of(name);
        let mut i: usize = 0;
        while i < self.attributes.len()
            invariant
                i <= self.attributes@.len(),
                want@ == name@,
                attribute_of(self@, name@) == attribute_from(self@.attributes, name@, i as int),
            decreases self.attributes@.len() - i,
        {
            let a = &self.attributes[i];
            assert(self@.attributes[i as int] == a@);
            if a.namespace.is_none() {
                let got = chars_of(a.name.as_str());
                if same_chars(got.as_slice(), want.as_slice()) {
                    return Some(a.value.as_str());
                }
            }
            i += 1;
        }
        None
    }

    fn is_called(&self, name: &str) -> (r: bool)
        ensures
            r == (self.tag@ == name@),
    {
        same_text(self.tag.as_str(), name)
    }

    fn is_plural_list(&self) -> (r: bool)
        ensures
            r == is_list_name(self.tag@),
    {
        self.is_called("entities") || self.is_called("extensions") || self.is_called("archetypes")
            || self.is_called("rooms") || self.is_called("portals") || self.is_called("entitySets")
            || self.is_called("attachedObjects") || self.is_called("locations") || self.is_called(
            "containerLods",
        ) || self.is_called("boxOccluders") || self.is_called("occludeModels") || self.is_called(
            "physicsDictionaries",
        ) || self.is_called("timeCycleModifiers") || self.is_called("carGenerators")
            || self.is_called("instances") || self.is_called("corners") || self.is_called(
            "MapDataGroups",
        ) || self.is_called("HDTxdBindingArray") || self.is_called("imapDependencies")
            || self.is_called("imapDependencies_2") || self.is_called("itypDependencies_2")
            || self.is_called("Interiors") || self.is_called("Bounds") || self.is_called(
            "WeatherTypes",
        ) || self.is_called("itypDepArray") || self.is_called("dependencies") || self.is_called(
            "compositeEntityTypes",
        ) || self.is_called("defaultEntitySets") || self.is_called("Effects")
    }

    fn vector(&self, x: &str, y: &str, floats: &FloatTexts) -> (r: MetaValue)
        requires
            attribute_of(self@, "value"@) is None,
            attribute_of(self@, "x"@) == Some(x@),
            attribute_of(self@, "y"@) == Some(y@),
        ensures
            attribute_value(self@, floats@) == Some(r@),
    {
        let a = component(x, floats);
        let b = component(y, floats);
        match self.attribute("z") {
            None => MetaValue::Vec2(Vec2::new(a, b)),
            Some(z) => {
                let c = component(z, floats);
                match self.attribute("w") {
                    Some(w) => MetaValue::Vec4(Vec4::new(a, b, c, component(w, floats))),
                    None => MetaValue::Vec3(Vec3::new(a, b, c)),
                }
            },
        }
    }

    fn leaf(&self, floats: &FloatTexts) -> (r: MetaValue)
        ensures
            r@ == leaf_value(self@, floats@),
    {
        let cs: Vec<char> = match &self.text {
            Some(t) => chars_of(t.as_str()),
            None => Vec::new(),
        };
        let text = trim(cs.as_slice());
        proof {
            let none = Seq::<char>::empty();
            assert(crate::chars::trimmed(none) =~= none);
        }
        if let Some(t) = self.attribute("itemType") {
            let words = split_words(text, false);
            let ghost all = crate::chars::words(text@, false);
            assert(crate::chars::runs(words@) == all);
            if same_text(t, "ByteArray") {
                return MetaValue::Bytes(read_bytes(&words));
            }
            let items = read_scalars(&words, floats);
            let r = MetaValue::Array(MetaArray { item_type: None, typed_items: false, items });
            assert(r@ =~= leaf_value(self@, floats@)) by {
                let a = r->Array_0;
                assert(r@ == ValueView::Array(a@));
                assert(a@.items =~= crate::value::values_view(a.items@));
                assert(a@.items =~= Seq::new(all.len(), |i: int| scalar_of(all[i], floats@)));
            }
            return r;
        }
        if text.len() == 0 && self.attribute("type").is_none() && !self.is_called("Item")
            && self.is_plural_list() {
            let a = MetaArray::default();
            return MetaValue::Array(a);
        }
        MetaValue::Str(string_of(text))
    }
}

fn same_text(a: &str, b: &str) -> (r: bool)
    ensures
        r == (a@ == b@),
{
    let x = chars_of(a);
    let y = chars_of(b);
    same_chars(x.as_slice(), y.as_slice())
}

fn component(text: &str, floats: &FloatTexts) -> (r: u32)
    ensures
        r == component_of(text@, floats@),
{
    let cs = chars_of(text);
    match floats.single(trim(cs.as_slice())) {
        Some(bits) => bits,
        None => 0,
    }
}

fn scalar(text: &[char], floats: &FloatTexts) -> (r: MetaValue)
    ensures
        r@ == scalar_of(text@, floats@),
{
    let v = trim(text);
    let yes = chars_of("true");
    if same_chars(v, yes.as_slice()) {
        return MetaValue::Bool(true);
    }
    let no = chars_of("false");
    if same_chars(v, no.as_slice()) {
        return MetaValue::Bool(false);
    }
    if let Some(n) = parse_signed(v, false) {
        return if -0x8000_0000 <= n && n <= 0x7FFF_FFFF {
            MetaValue::I32(n as i32)
        } else {
            MetaValue::I64(n)
        };
    }
    if let Some(hex) = strip(v, "0x") {
        if let Some(u) = parse_unsigned(hex, true, 0xFFFF_FFFF) {
            return MetaValue::U32(u as u32);
        }
    } else if let Some(hex) = strip(v, "0X") {
        if let Some(u) = parse_unsigned(hex, true, 0xFFFF_FFFF) {
            return MetaValue::U32(u as u32);
        }
    }
    match floats.single(v) {
        Some(bits) => MetaValue::F32(bits),
        None => MetaValue::Str(string_of(v)),
    }
}

fn read_bytes(words: &Vec<Vec<char>>) -> (r: Vec<u8>)
    ensures
        r@ == bytes_among(crate::chars::runs(words@), words@.len()),
{
    let ghost all = crate::chars::runs(words@);
    let mut out: Vec<u8> = Vec::new();
    let mut i: usize = 0;
    while i < words.len()
        invariant
            i <= words@.len(),
            all == crate::chars::runs(words@),
            out@ == bytes_among(all, i as nat),
        decreases words@.len() - i,
    {
        assert(all[i as int] == words@[i as int]@);
        if let Some(b) = parse_unsigned(words[i].as_slice(), true, 0xFF) {
            out.push(b as u8);
        }
        i += 1;
    }
    out
}

fn read_scalars(words: &Vec<Vec<char>>, floats: &FloatTexts) -> (r: Vec<MetaValue>)
    ensures
        r@.len() == words@.len(),
        forall|i: int|
            0 <= i < r@.len() ==> (#[trigger] r@[i])@ == scalar_of(words@[i]@, floats@),
{
    let mut out: Vec<MetaValue> = Vec::new();
    let mut i: usize = 0;
    while i < words.len()
        invariant
            i <= words@.len(),
            out@.len() == i,
            forall|k: int|
                0 <= k < i ==> (#[trigger] out@[k])@ == scalar_of(words@[k]@, floats@),
        decreases words@.len() - i,
    {
        out.push(scalar(words[i].as_slice(), floats));
        i += 1;
    }
    out
}

fn all_called_item(nodes: &Vec<XmlNode>, list: &Vec<usize>) -> (r: bool)
    requires
        forall|k: int| 0 <= k < list@.len() ==> #[trigger] list@[k] < nodes@.len(),
    ensures
        r == all_items(nodes_view(nodes@), ints(list@)),
{
    let ghost views = nodes_view(nodes@);
    let ghost c = ints(list@);
    let mut k: usize = 0;
    while k < list.len()
        invariant
            k <= list@.len(),
            views == nodes_view(nodes@),
            c == ints(list@),
            forall|j: int| 0 <= j < list@.len() ==> #[trigger] list@[j] < nodes@.len(),
            forall|j: int| 0 <= j < k ==> (#[trigger] views[c[j]]).tag == "Item"@,
        decreases list@.len() - k,
    {
        assert(views[c[k as int]] == nodes@[list@[k as int] as int]@);
        if !nodes[list[k]].is_called("Item") {
            return false;
        }
        k += 1;
    }
    true
}

fn any_with_type(nodes: &Vec<XmlNode>, list: &Vec<usize>) -> (r: bool)
    requires
        forall|k: int| 0 <= k < list@.len() ==> #[trigger] list@[k] < nodes@.len(),
    ensures
        r == any_typed(nodes_view(nodes@), ints(list@)),
{
    let ghost views = nodes_view(nodes@);
    let ghost c = ints(list@);
    let mut k: usize = 0;
    while k < list.len()
        invariant
            k <= list@.len(),
            views == nodes_view(nodes@),
            c == ints(list@),
            forall|j: int| 0 <= j < list@.len() ==> #[trigger] list@[j] < nodes@.len(),
            forall|j: int| 0 <= j < k ==> attribute_of(#[trigger] views[c[j]], "type"@) is None,
        decreases list@.len() - k,
    {
        assert(views[c[k as int]] == nodes@[list@[k as int] as int]@);
        if nodes[list[k]].attribute("type").is_some() {
            return true;
        }
        k += 1;
    }
    false
}

fn element(nodes: &Vec<XmlNode>, children: &Children, i: usize, floats: &FloatTexts) -> (r: MetaValue)
    requires
        i < nodes@.len(),
        children.fits(nodes_view(nodes@)),
    ensures
        r@ == element_value(nodes_view(nodes@), i as int, floats@),
    decreases nodes@.len() - i,
{
    let ghost views = nodes_view(nodes@);
    let node = &nodes[i];
    assert(views[i as int] == node@);
    if let Some(v) = node.attribute("value") {
        let cs = chars_of(v);
        return scalar(cs.as_slice(), floats);
    }
    if let (Some(x), Some(y)) = (node.attribute("x"), node.attribute("y")) {
        return node.vector(x, y, floats);
    }
    let list = &children.lists[i];
    let ghost c = children_of(views, i as int);
    assert(ints(list@) == c);
    assert(list@.len() == c.len());
    proof {
        lemma_children(views, i as int, views.len());
        assert forall|k: int| 0 <= k < list@.len() implies #[trigger] list@[k] < nodes@.len()
            && list@[k] > i by {
            assert(c[k] == list@[k] as int);
        }
    }
    if list.len() == 0 {
        return node.leaf(floats);
    }
    let mut fields: Vec<(u32, MetaValue)> = Vec::new();
    let mut k: usize = 0;
    assert(crate::value::fields_view(fields@) =~= child_values(views, i as int, 0, floats@));
    while k < list.len()
        invariant
            k <= list@.len(),
            i < nodes@.len(),
            children.fits(views),
            views == nodes_view(nodes@),
            c == children_of(views, i as int),
            c == ints(list@),
            forall|j: int| 0 <= j < list@.len() ==> i < #[trigger] list@[j] < nodes@.len(),
            crate::value::fields_view(fields@) == child_values(
                views,
                i as int,
                k as nat,
                floats@,
            ),
        decreases list@.len() - k,
    {
        let j = list[k];
        assert(c[k as int] == j as int);
        let hash = hash_of_str(nodes[j].tag.as_str());
        let value = element(nodes, children, j, floats);
        let ghost had = crate::value::fields_view(fields@);
        let ghost now = (hash, value@);
        assert(views[j as int] == nodes@[j as int]@);
        fields.push((hash, value));
        assert(crate::value::fields_view(fields@) =~= had.push(now));
        k += 1;
    }
    let ghost values = child_values(views, i as int, c.len(), floats@);
    if all_called_item(nodes, list) {
        let item_type: Option<u32> = match node.attribute("itemType") {
            Some(t) => Some(hash_of_str(t)),
            None => None,
        };
        let typed_items = any_with_type(nodes, list);
        let items = without_names(fields);
        let r = MetaValue::Array(MetaArray { item_type, typed_items, items });
        assert(r@ == ValueView::Array((r->Array_0)@));
        assert((r->Array_0)@.items =~= Seq::new(values.len(), |k: int| values[k].1));
        return r;
    }
    let type_hash = match node.attribute("type") {
        Some(t) => hash_of_str(t),
        None => hash_of_str(node.tag.as_str()),
    };
    let r = MetaValue::Struct(MetaStruct { type_hash, fields });
    assert(r@ == ValueView::Struct((r->Struct_0)@));
    assert((r->Struct_0)@.fields =~= values);
    r
}

/// The values of some members, in order.
pub(crate) fn without_names(fields: Vec<(u32, MetaValue)>) -> (items: Vec<MetaValue>)
    ensures
        items@.len() == fields@.len(),
        forall|k: int| 0 <= k < items@.len() ==> (#[trigger] items@[k])@ == fields@[k].1@,
{
    let mut items: Vec<MetaValue> = Vec::new();
    let mut k: usize = 0;
    while k < fields.len()
        invariant
            k <= fields@.len(),
            items@.len() == k,
            forall|j: int| 0 <= j < k ==> (#[trigger] items@[j])@ == fields@[j].1@,
        decreases fields@.len() - k,
    {
        items.push(fields[k].1.copy());
        k += 1;
    }
    items
}

/// The nodes of the document that a text holds, for a caller that reads the
/// floats in it before [`read_nodes`].
pub fn document(text: &str) -> (r: Result<Vec<XmlNode>, XmlError>)
    ensures
        parsed_nodes(text@) == (match r {
            Ok(nodes) => Some(nodes_view(nodes@)),
            Err(XmlError::Malformed) => None,
        }),
{
    match parse_document(text) {
        Some(nodes) => Ok(nodes),
        None => Err(XmlError::Malformed),
    }
}

/// The tree that a document's nodes hold.
pub fn read_nodes(nodes: &Vec<XmlNode>, floats: &FloatTexts) -> (r: Result<MetaValue, XmlError>)
    ensures
        tree_of(Some(nodes_view(nodes@)), floats@) == (match r {
            Ok(v) => Ok::<ValueView, XmlError>(v@),
            Err(e) => Err(e),
        }),
{
    let ghost views = nodes_view(nodes@);
    let children = Children::of(nodes);
    proof {
        lemma_children(views, 0, views.len());
    }
    if nodes.len() == 0 {
        return Err(XmlError::Malformed);
    }
    let top = &children.lists[0];
    assert(ints(top@) == children_of(views, 0));
    assert(top@.len() == children_of(views, 0).len());
    if top.len() == 0 {
        return Err(XmlError::Malformed);
    }
    assert(children_of(views, 0)[0] == top@[0] as int);
    Ok(element(nodes, &children, top[0], floats))
}

/// Reads a document in the layout [`to_xml`] writes (CodeWalker's) back
/// into a tree. Element names are hashed, so the result is what a binary
/// file would have produced, minus the type information the schema would
/// carry: numbers become `I32`/`F32`, text becomes `Str` (which hashes like
/// a name where a hash is expected), `<Item>` lists become arrays.
pub fn from_xml(text: &str, floats: &FloatTexts) -> (r: Result<MetaValue, XmlError>)
    ensures
        tree_of(parsed_nodes(text@), floats@) == (match r {
            Ok(v) => Ok::<ValueView, XmlError>(v@),
            Err(e) => Err(e),
        }),
{
    match document(text) {
        Ok(nodes) => read_nodes(&nodes, floats),
        Err(e) => Err(e),
    }
}

} // verus!
