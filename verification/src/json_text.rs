//! JSON text: read by the `json` crate, whose values are walked here.

use vstd::prelude::*;
use vstd::string::*;

use crate::coerce::FloatTexts;
use crate::json::{value_of, JsonNode, JsonView};
use crate::text::{chars_of, push_decimal, push_signed};
use crate::value::{MetaValue, ValueView};

verus! {

/// What a JSON text holds. A number is a decimal: a mantissa times a power
/// of ten.
#[verifier::ext_equal]
pub enum RawView {
    Null,
    Bool(bool),
    Number { positive: bool, mantissa: u64, exponent: i16 },
    Text(Seq<char>),
    Array(Seq<RawView>),
    Object(Seq<(Seq<char>, RawView)>),
}

/// The value type of the `json` crate.
#[verifier::external_type_specification]
#[verifier::external_body]
pub struct ExJsonValue(::json::JsonValue);

/// What a value of the `json` crate holds, with all that is inside it.
pub uninterp spec fn held(v: ::json::JsonValue) -> RawView;

/// What `json::parse` makes of a text: what it holds, or what is wrong with
/// it in words.
pub uninterp spec fn parsed_text(text: Seq<char>) -> Result<RawView, Seq<char>>;

/// What a parse gives.
pub open spec fn outcome(r: Result<::json::JsonValue, String>) -> Result<RawView, Seq<char>> {
    match r {
        Ok(v) => Ok(held(v)),
        Err(e) => Err(e@),
    }
}

/// Where a place in a JSON text stands: outside any string, in one, or in one
/// right behind a backslash.
#[derive(Clone, Copy, PartialEq, Eq, Structural)]
pub enum Place {
    Outside,
    Inside,
    Escaped,
}

/// The place that `c` leads to.
pub open spec fn next_place(p: Place, c: char) -> Place {
    match p {
        Place::Outside => if c == '"' {
            Place::Inside
        } else {
            Place::Outside
        },
        Place::Inside => if c == '"' {
            Place::Outside
        } else if c == '\\' {
            Place::Escaped
        } else {
            Place::Inside
        },
        Place::Escaped => Place::Inside,
    }
}

/// The place behind the first `n` characters of a text.
pub open spec fn place(text: Seq<char>, n: int) -> Place
    decreases n,
{
    if n <= 0 {
        Place::Outside
    } else {
        next_place(place(text, n - 1), text[n - 1])
    }
}

pub open spec fn is_digit(c: char) -> bool {
    '0' <= c <= '9'
}

/// How many zeros behind a decimal point are always few enough.
pub const MOST_ZEROS: usize = 32748;

/// How many digits behind a decimal point are always few enough.
pub const MOST_DIGITS: usize = 32768;

/// Whether a number starts at `i` whose power of ten would not fit sixteen
/// bits: a zero, a point, and behind it more zeros and more digits than the
/// parser can count.
pub open spec fn too_small(text: Seq<char>, i: int) -> bool {
    &&& i + 2 + MOST_DIGITS < text.len()
    &&& place(text, i) is Outside
    &&& text[i] == '0'
    &&& i == 0 || !is_digit(text[i - 1])
    &&& text[i + 1] == '.'
    &&& forall|j: int| i + 2 <= j <= i + 2 + MOST_ZEROS ==> #[trigger] text[j] == '0'
    &&& forall|j: int| i + 2 <= j <= i + 2 + MOST_DIGITS ==> is_digit(#[trigger] text[j])
}

/// Whether no number in a text has a power of ten that sixteen bits cannot
/// hold.
pub open spec fn short_zeros(text: Seq<char>) -> bool {
    forall|i: int| 0 <= i < text.len() ==> !#[trigger] too_small(text, i)
}

/// Whether [`from_json`] can read a text: no number in it is a zero, a point
/// and more zeros than its power of ten can count.
pub fn zeros_are_short(text: &str) -> (r: bool)
    ensures
        r == short_zeros(text@),
{
    let cs = chars_of(text);
    let n = cs.len();
    let mut p = Place::Outside;
    let mut i: usize = 0;
    while i < n
        invariant
            i <= n,
            n == cs@.len(),
            cs@ == text@,
            p == place(text@, i as int),
            forall|k: int| 0 <= k < i ==> !#[trigger] too_small(text@, k),
        decreases n - i,
    {
        let c = cs[i];
        if p == Place::Outside && c == '0' && n - i > 2 + MOST_DIGITS && cs[i + 1] == '.' && (i
            == 0 || cs[i - 1] < '0' || '9' < cs[i - 1]) {
            if digits_from(cs.as_slice(), i + 2) {
                assert(too_small(text@, i as int));
                return false;
            }
        }
        p = match p {
            Place::Outside => if c == '"' {
                Place::Inside
            } else {
                Place::Outside
            },
            Place::Inside => if c == '"' {
                Place::Outside
            } else if c == '\\' {
                Place::Escaped
            } else {
                Place::Inside
            },
            Place::Escaped => Place::Inside,
        };
        i += 1;
    }
    true
}

fn digits_from(cs: &[char], start: usize) -> (r: bool)
    requires
        start + MOST_DIGITS < cs@.len(),
    ensures
        r == {
            &&& forall|j: int| start <= j <= start + MOST_ZEROS ==> #[trigger] cs@[j] == '0'
            &&& forall|j: int| start <= j <= start + MOST_DIGITS ==> is_digit(#[trigger] cs@[j])
        },
{
    let len = cs.len();
    let mut k: usize = 0;
    while k <= MOST_DIGITS
        invariant
            k <= MOST_DIGITS + 1,
            len == cs@.len(),
            start + MOST_DIGITS < cs@.len(),
            forall|j: int|
                start <= j <= start + MOST_ZEROS && j < start + k ==> #[trigger] cs@[j] == '0',
            forall|j: int| start <= j < start + k ==> is_digit(#[trigger] cs@[j]),
        decreases MOST_DIGITS + 1 - k,
    {
        let c = cs[start + k];
        if c < '0' || '9' < c || (k <= MOST_ZEROS && c != '0') {
            assert(cs@[start + k] == c);
            return false;
        }
        k += 1;
    }
    true
}

/// `json::parse`, the error in words. Both depend on the text alone; the
/// parser counts the zeros after a decimal point in sixteen bits.
#[verifier::external_body]
fn parse_text(text: &str) -> (r: Result<::json::JsonValue, String>)
    requires
        short_zeros(text@),
    ensures
        outcome(r) == parsed_text(text@),
{
    ::json::parse(text).map_err(|e| e.to_string())
}

/// A JSON value without what is inside it: of an array or an object how many
/// it holds.
pub enum Top {
    Null,
    Bool(bool),
    Number { positive: bool, mantissa: u64, exponent: i16 },
    Text(String),
    Array(usize),
    Object(usize),
}

/// Whether `t` is the outside of `v`.
pub open spec fn is_top(t: Top, v: RawView) -> bool {
    match (t, v) {
        (Top::Null, RawView::Null) => true,
        (Top::Bool(a), RawView::Bool(b)) => a == b,
        (
            Top::Number { positive: a, mantissa: m, exponent: e },
            RawView::Number { positive, mantissa, exponent },
        ) => a == positive && m == mantissa && e == exponent,
        (Top::Text(s), RawView::Text(t)) => s@ == t,
        (Top::Array(n), RawView::Array(items)) => n == items.len(),
        (Top::Object(n), RawView::Object(entries)) => n == entries.len(),
        _ => false,
    }
}

/// The variants of `json::JsonValue`: a number by `Number::as_parts`, an
/// array or an object by its `len`. Both kinds of string are texts.
#[verifier::external_body]
fn top_of(v: &::json::JsonValue) -> (r: Top)
    ensures
        is_top(r, held(*v)),
{
    match v {
        ::json::JsonValue::Null => Top::Null,
        ::json::JsonValue::Boolean(b) => Top::Bool(*b),
        ::json::JsonValue::Number(n) => {
            let (positive, mantissa, exponent) = n.as_parts();
            Top::Number { positive, mantissa, exponent }
        },
        ::json::JsonValue::Short(s) => Top::Text(s.to_string()),
        ::json::JsonValue::String(s) => Top::Text(s.to_string()),
        ::json::JsonValue::Array(items) => Top::Array(items.len()),
        ::json::JsonValue::Object(entries) => Top::Object(entries.len()),
    }
}

/// `json::JsonValue` indexed by a number: element `i` of an array.
#[verifier::external_body]
fn item_of(v: &::json::JsonValue, i: usize) -> (r: &::json::JsonValue)
    requires
        held(*v) is Array,
        i < held(*v)->Array_0.len(),
    ensures
        held(*r) == held(*v)->Array_0[i as int],
{
    &v[i]
}

/// `json::JsonValue::entries`: entry `i` of an object, in the order in which
/// the names were first added.
#[verifier::external_body]
fn entry_of(v: &::json::JsonValue, i: usize) -> (r: (&str, &::json::JsonValue))
    requires
        held(*v) is Object,
        i < held(*v)->Object_0.len(),
    ensures
        (r.0@, held(*r.1)) == held(*v)->Object_0[i as int],
{
    v.entries().nth(i).unwrap()
}

// ─── numbers ─────────────────────────────────────────────────────────────────

/// A decimal in words: a sign, the mantissa, `e` and the power of ten.
pub open spec fn decimal_text(positive: bool, mantissa: u64, exponent: i16) -> Seq<char> {
    (if positive {
        Seq::<char>::empty()
    } else {
        "-"@
    }) + crate::text::decimal(mantissa as nat) + "e"@ + crate::text::signed_decimal(
        exponent as int,
    )
}

/// A decimal as a number: an integer where no power of ten is left and it fits
/// 64 bits, a signed one before an unsigned one; else the single that `floats`
/// lists for it, zero where it lists none.
pub open spec fn number_of(
    positive: bool,
    mantissa: u64,
    exponent: i16,
    floats: crate::coerce::Floats,
) -> JsonView {
    let n = if positive {
        mantissa as int
    } else {
        -(mantissa as int)
    };
    if exponent == 0 && i64::MIN <= n <= i64::MAX {
        JsonView::Int(n as i64)
    } else if exponent == 0 && positive {
        JsonView::Uint(mantissa)
    } else {
        JsonView::Float(
            match crate::coerce::single_of(floats, decimal_text(positive, mantissa, exponent)) {
                Some(bits) => bits,
                None => 0,
            },
        )
    }
}

fn read_number(positive: bool, mantissa: u64, exponent: i16, floats: &FloatTexts) -> (r: JsonNode)
    ensures
        r@ == number_of(positive, mantissa, exponent, floats@),
{
    if exponent == 0 {
        if mantissa <= 0x7FFF_FFFF_FFFF_FFFF {
            let n = mantissa as i64;
            return JsonNode::Int(
                if positive {
                    n
                } else {
                    -n
                },
            );
        }
        if positive {
            return JsonNode::Uint(mantissa);
        }
        if mantissa == 0x8000_0000_0000_0000 {
            return JsonNode::Int(i64::MIN);
        }
    }
    let mut text = String::new();
    if !positive {
        text.append("-");
    }
    push_decimal(&mut text, mantissa);
    text.append("e");
    push_signed(&mut text, exponent as i64);
    assert(text@ =~= decimal_text(positive, mantissa, exponent));
    let cs = chars_of(text.as_str());
    JsonNode::Float(
        match floats.single(cs.as_slice()) {
            Some(bits) => bits,
            None => 0,
        },
    )
}

// ─── trees ───────────────────────────────────────────────────────────────────

/// A JSON value as a node.
pub open spec fn node_of(v: RawView, floats: crate::coerce::Floats) -> JsonView
    decreases v,
{
    match v {
        RawView::Null => JsonView::Null,
        RawView::Bool(b) => JsonView::Bool(b),
        RawView::Number { positive, mantissa, exponent } => number_of(
            positive,
            mantissa,
            exponent,
            floats,
        ),
        RawView::Text(s) => JsonView::Str(s),
        RawView::Array(items) => JsonView::Array(
            Seq::new(
                items.len(),
                |i: int|
                    if 0 <= i < items.len() {
                        node_of(items[i], floats)
                    } else {
                        arbitrary()
                    },
            ),
        ),
        RawView::Object(entries) => JsonView::Object(
            Seq::new(
                entries.len(),
                |i: int|
                    if 0 <= i < entries.len() {
                        (entries[i].0, node_of(entries[i].1, floats))
                    } else {
                        arbitrary()
                    },
            ),
        ),
    }
}

fn read_node(v: &::json::JsonValue, floats: &FloatTexts) -> (r: JsonNode)
    ensures
        r@ == node_of(held(*v), floats@),
    decreases held(*v),
{
    match top_of(v) {
        Top::Null => JsonNode::Null,
        Top::Bool(b) => JsonNode::Bool(b),
        Top::Number { positive, mantissa, exponent } => read_number(
            positive,
            mantissa,
            exponent,
            floats,
        ),
        Top::Text(s) => JsonNode::Str(s),
        Top::Array(n) => {
            let ghost raw = held(*v)->Array_0;
            let mut out: Vec<JsonNode> = Vec::new();
            let mut i: usize = 0;
            while i < n
                invariant
                    i <= n,
                    n == raw.len(),
                    held(*v) == RawView::Array(raw),
                    out@.len() == i,
                    forall|k: int|
                        0 <= k < i ==> crate::json::json_view(#[trigger] out@[k]) == node_of(
                            raw[k],
                            floats@,
                        ),
                decreases n - i,
            {
                let item = item_of(v, i);
                assert(decreases_to!(held(*v) => raw));
                assert(decreases_to!(raw => raw[i as int]));
                out.push(read_node(item, floats));
                i += 1;
            }
            let r = JsonNode::Array(out);
            assert(r@->Array_0 =~= node_of(held(*v), floats@)->Array_0);
            r
        },
        Top::Object(n) => {
            let ghost raw = held(*v)->Object_0;
            let mut out: Vec<(String, JsonNode)> = Vec::new();
            let mut i: usize = 0;
            while i < n
                invariant
                    i <= n,
                    n == raw.len(),
                    held(*v) == RawView::Object(raw),
                    out@.len() == i,
                    forall|k: int|
                        0 <= k < i ==> (#[trigger] out@[k]).0@ == raw[k].0 && crate::json::json_view(
                            out@[k].1,
                        ) == node_of(raw[k].1, floats@),
                decreases n - i,
            {
                let (key, item) = entry_of(v, i);
                assert(decreases_to!(held(*v) => raw));
                assert(decreases_to!(raw => raw[i as int]));
                assert(decreases_to!(raw[i as int] => raw[i as int].1));
                let node = read_node(item, floats);
                out.push((key.to_string(), node));
                i += 1;
            }
            let r = JsonNode::Object(out);
            assert(r@->Object_0 =~= node_of(held(*v), floats@)->Object_0);
            r
        },
    }
}

/// What is wrong with a JSON text.
#[derive(Debug, PartialEq, Eq)]
pub struct JsonError {
    pub reason: String,
}

impl JsonError {
    /// The error in words.
    pub fn message(&self) -> (r: String)
        ensures
            r@ == "malformed JSON: "@ + self.reason@,
    {
        let mut out = String::new();
        out.append("malformed JSON: ");
        out.append(self.reason.as_str());
        assert(out@ =~= "malformed JSON: "@ + self.reason@);
        out
    }
}

/// The tree that a JSON text holds, or what is wrong with it.
pub open spec fn read_as(parsed: Result<RawView, Seq<char>>, floats: crate::coerce::Floats) -> Result<
    ValueView,
    Seq<char>,
> {
    match parsed {
        Ok(v) => Ok(crate::json::tree_of(node_of(v, floats))),
        Err(e) => Err(e),
    }
}

/// The inverse of [`to_json`](crate::json::to_json), without a schema: objects
/// with a `$type` become structures, arrays of `{key, value}` objects become
/// maps, numbers become integers or singles, texts stay texts, as
/// [`value_of`] reads a node. `floats` lists the singles of the numbers that
/// are no integers.
pub fn from_json(text: &str, floats: &FloatTexts) -> (r: Result<MetaValue, JsonError>)
    requires
        short_zeros(text@),
    ensures
        read_as(parsed_text(text@), floats@) == (match r {
            Ok(v) => Ok::<ValueView, Seq<char>>(v@),
            Err(e) => Err::<ValueView, Seq<char>>(e.reason@),
        }),
{
    match parse_text(text) {
        Ok(v) => {
            let node = read_node(&v, floats);
            Ok(value_of(&node))
        },
        Err(reason) => Err(JsonError { reason }),
    }
}

} // verus!
