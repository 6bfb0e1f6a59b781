//! What a writer had to leave out of a file.

use vstd::prelude::*;
use vstd::string::*;

use crate::text::{push_decimal, push_hex_lower};
use crate::value::{MetaValue, ValueView};

verus! {

/// Why a member could not be written.
#[derive(Debug, Clone, Copy, PartialEq, Eq, Structural)]
pub enum BuildFault {
    DoesNotFit { at: u64, size: u64 },
    StringSubtype(u8),
    StringArraySubtype(u8),
    MapSubtype(u8),
    NoSchema(u32),
    NoElementSchema(u32),
    NoPairSchema(u32),
    NoArrayInfo,
    MemberType(u8),
    ElementType(u8),
    ZeroLengthStrings,
}

impl BuildFault {
    /// The fault in words.
    pub fn message(&self) -> (r: String)
        ensures
            r@ == self.text(),
    {
        let mut out = String::new();
        match self {
            BuildFault::DoesNotFit { at, size } => {
                out.append("member at ");
                push_decimal(&mut out, *at as u64);
                out.append(" does not fit the ");
                push_decimal(&mut out, *size as u64);
                out.append("-byte structure");
            },
            BuildFault::StringSubtype(s) => {
                out.append("string subtype ");
                push_decimal(&mut out, *s as u64);
                out.append(" is not supported");
            },
            BuildFault::StringArraySubtype(s) => {
                out.append("string array subtype ");
                push_decimal(&mut out, *s as u64);
                out.append(" is not supported");
            },
            BuildFault::MapSubtype(s) => {
                out.append("map subtype ");
                push_decimal(&mut out, *s as u64);
                out.append(" is not supported");
            },
            BuildFault::NoSchema(h) => {
                out.append("no schema for structure ");
                out.append("0x");
                push_hex_lower(&mut out, *h as u64, 8);
            },
            BuildFault::NoElementSchema(h) => {
                out.append("no schema for element structure ");
                out.append("0x");
                push_hex_lower(&mut out, *h as u64, 8);
            },
            BuildFault::NoPairSchema(h) => {
                out.append("no schema for map pair structure ");
                out.append("0x");
                push_hex_lower(&mut out, *h as u64, 8);
            },
            BuildFault::NoArrayInfo => {
                out.append("array without ARRAYINFO in the schema");
            },
            BuildFault::MemberType(ty) => {
                out.append("member type ");
                out.append("0x");
                push_hex_lower(&mut out, *ty as u64, 2);
                out.append(" is not supported");
            },
            BuildFault::ElementType(ty) => {
                out.append("arrays of element type ");
                out.append("0x");
                push_hex_lower(&mut out, *ty as u64, 2);
                out.append(" are not supported");
            },
            BuildFault::ZeroLengthStrings => {
                out.append("array of zero-length strings");
            },
        }
        assert(out@ =~= self.text());
        out
    }

    /// The fault in words.
    pub open spec fn text(&self) -> Seq<char> {
        match self {
            BuildFault::DoesNotFit { at, size } => "member at "@ + crate::text::decimal(*at as nat) + " does not fit the "@ + crate::text::decimal(*size as nat) + "-byte structure"@,
            BuildFault::StringSubtype(s) => "string subtype "@ + crate::text::decimal(*s as nat) + " is not supported"@,
            BuildFault::StringArraySubtype(s) => "string array subtype "@ + crate::text::decimal(*s as nat) + " is not supported"@,
            BuildFault::MapSubtype(s) => "map subtype "@ + crate::text::decimal(*s as nat) + " is not supported"@,
            BuildFault::NoSchema(h) => "no schema for structure "@ + "0x"@ + crate::text::hex_lower(*h as nat, 8),
            BuildFault::NoElementSchema(h) => "no schema for element structure "@ + "0x"@ + crate::text::hex_lower(*h as nat, 8),
            BuildFault::NoPairSchema(h) => "no schema for map pair structure "@ + "0x"@ + crate::text::hex_lower(*h as nat, 8),
            BuildFault::NoArrayInfo => "array without ARRAYINFO in the schema"@,
            BuildFault::MemberType(ty) => "member type "@ + "0x"@ + crate::text::hex_lower(*ty as nat, 2) + " is not supported"@,
            BuildFault::ElementType(ty) => "arrays of element type "@ + "0x"@ + crate::text::hex_lower(*ty as nat, 2) + " are not supported"@,
            BuildFault::ZeroLengthStrings => "array of zero-length strings"@,
        }
    }
}

/// What a member wanted its value to be.
#[derive(Debug, Clone, Copy, PartialEq, Eq, Structural)]
pub enum ValueKind {
    Boolean,
    Integer,
    Float,
    Vector2,
    Vector3,
    Vector4,
    Name,
    Text,
    Hash,
    EnumMember,
    FlagSet,
    Structure,
    Array,
    Pairs,
    Bytes,
    Value,
}

impl ValueKind {
    /// The kind in words.
    pub fn message(&self) -> (r: String)
        ensures
            r@ == self.text(),
    {
        let mut out = String::new();
        match self {
            ValueKind::Boolean => {
                out.append("boolean");
            },
            ValueKind::Integer => {
                out.append("integer");
            },
            ValueKind::Float => {
                out.append("float");
            },
            ValueKind::Vector2 => {
                out.append("vector2");
            },
            ValueKind::Vector3 => {
                out.append("vector3");
            },
            ValueKind::Vector4 => {
                out.append("vector4");
            },
            ValueKind::Name => {
                out.append("string or name");
            },
            ValueKind::Text => {
                out.append("string");
            },
            ValueKind::Hash => {
                out.append("hash");
            },
            ValueKind::EnumMember => {
                out.append("enum member");
            },
            ValueKind::FlagSet => {
                out.append("flag set");
            },
            ValueKind::Structure => {
                out.append("structure");
            },
            ValueKind::Array => {
                out.append("array");
            },
            ValueKind::Pairs => {
                out.append("map");
            },
            ValueKind::Bytes => {
                out.append("byte array");
            },
            ValueKind::Value => {
                out.append("value");
            },
        }
        assert(out@ =~= self.text());
        out
    }

    /// The kind in words.
    pub open spec fn text(&self) -> Seq<char> {
        match self {
            ValueKind::Boolean => "boolean"@,
            ValueKind::Integer => "integer"@,
            ValueKind::Float => "float"@,
            ValueKind::Vector2 => "vector2"@,
            ValueKind::Vector3 => "vector3"@,
            ValueKind::Vector4 => "vector4"@,
            ValueKind::Name => "string or name"@,
            ValueKind::Text => "string"@,
            ValueKind::Hash => "hash"@,
            ValueKind::EnumMember => "enum member"@,
            ValueKind::FlagSet => "flag set"@,
            ValueKind::Structure => "structure"@,
            ValueKind::Array => "array"@,
            ValueKind::Pairs => "map"@,
            ValueKind::Bytes => "byte array"@,
            ValueKind::Value => "value"@,
        }
    }
}

/// Something that a writer had to leave out.
#[derive(Debug, PartialEq)]
pub enum BuildWarning {
    Fault { structure: u32, member: u32, fault: BuildFault },
    /// The value is not of the kind that the member wants.
    Mismatch { structure: u32, member: u32, wanted: ValueKind, value: MetaValue },
    /// An element of a structure array is no structure.
    Element { structure: u32, member: u32, value: MetaValue },
}

/// The model of a [`BuildWarning`].
#[verifier::ext_equal]
pub enum BuildWarningView {
    Fault { structure: u32, member: u32, fault: BuildFault },
    Mismatch { structure: u32, member: u32, wanted: ValueKind, value: ValueView },
    Element { structure: u32, member: u32, value: ValueView },
}

impl View for BuildWarning {
    type V = BuildWarningView;

    open spec fn view(&self) -> BuildWarningView {
        match self {
            BuildWarning::Fault { structure, member, fault } => BuildWarningView::Fault {
                structure: *structure,
                member: *member,
                fault: *fault,
            },
            BuildWarning::Mismatch { structure, member, wanted, value } => {
                BuildWarningView::Mismatch {
                    structure: *structure,
                    member: *member,
                    wanted: *wanted,
                    value: value@,
                }
            },
            BuildWarning::Element { structure, member, value } => BuildWarningView::Element {
                structure: *structure,
                member: *member,
                value: value@,
            },
        }
    }
}

impl BuildWarning {
    /// The warning in words. A value can hold floating-point numbers, whose
    /// digits are not worked out here: the caller prints the value that the
    /// warning holds, where it holds one, and hands its text in.
    pub fn message(&self, value: &str) -> (r: String)
        ensures
            r@ == self.text(value@),
    {
        let mut out = String::new();
        match self {
            BuildWarning::Fault { structure, member, fault } => {
                out.append("0x");
                push_hex_lower(&mut out, *structure as u64, 8);
                out.append(".");
                out.append("0x");
                push_hex_lower(&mut out, *member as u64, 8);
                out.append(": ");
                let inner = fault.message();
                out.append(inner.as_str());
            },
            BuildWarning::Mismatch { structure, member, wanted, value: _ } => {
                out.append("0x");
                push_hex_lower(&mut out, *structure as u64, 8);
                out.append(".");
                out.append("0x");
                push_hex_lower(&mut out, *member as u64, 8);
                out.append(": value ");
                out.append(value);
                out.append(" is not a ");
                let inner = wanted.message();
                out.append(inner.as_str());
            },
            BuildWarning::Element { structure, member, value: _ } => {
                out.append("0x");
                push_hex_lower(&mut out, *structure as u64, 8);
                out.append(".");
                out.append("0x");
                push_hex_lower(&mut out, *member as u64, 8);
                out.append(": element ");
                out.append(value);
                out.append(" is not a structure");
            },
        }
        assert(out@ =~= self.text(value@));
        out
    }

    /// The warning in words, with the text of its value.
    pub open spec fn text(&self, shown: Seq<char>) -> Seq<char> {
        match self {
            BuildWarning::Fault { structure, member, fault } => "0x"@ + crate::text::hex_lower(*structure as nat, 8) + "."@ + "0x"@ + crate::text::hex_lower(*member as nat, 8) + ": "@ + fault.text(),
            BuildWarning::Mismatch { structure, member, wanted, value: _ } => "0x"@ + crate::text::hex_lower(*structure as nat, 8) + "."@ + "0x"@ + crate::text::hex_lower(*member as nat, 8) + ": value "@ + shown + " is not a "@ + wanted.text(),
            BuildWarning::Element { structure, member, value: _ } => "0x"@ + crate::text::hex_lower(*structure as nat, 8) + "."@ + "0x"@ + crate::text::hex_lower(*member as nat, 8) + ": element "@ + shown + " is not a structure"@,
        }
    }
}

/// The models of a list of warnings.
pub open spec fn warnings_view(ws: Seq<BuildWarning>) -> Seq<BuildWarningView> {
    Seq::new(ws.len(), |i: int| ws[i]@)
}

/// Whether two warnings read alike.
pub open spec fn alike_warnings(a: BuildWarningView, b: BuildWarningView) -> bool {
    match (a, b) {
        (
            BuildWarningView::Mismatch { structure, member, wanted, value },
            BuildWarningView::Mismatch { structure: s2, member: m2, wanted: w2, value: v2 },
        ) => structure == s2 && member == m2 && wanted == w2 && crate::value::alike(value, v2),
        (
            BuildWarningView::Element { structure, member, value },
            BuildWarningView::Element { structure: s2, member: m2, value: v2 },
        ) => structure == s2 && member == m2 && crate::value::alike(value, v2),
        _ => a == b,
    }
}

/// A list of warnings with one more, unless one that reads alike is there
/// already.
pub open spec fn warned(ws: Seq<BuildWarningView>, w: BuildWarningView) -> Seq<BuildWarningView> {
    if exists|i: int| 0 <= i < ws.len() && alike_warnings(#[trigger] ws[i], w) {
        ws
    } else {
        ws.push(w)
    }
}

impl BuildWarning {
    fn same(&self, other: &BuildWarning) -> (r: bool)
        ensures
            r == alike_warnings(self@, other@),
    {
        match (self, other) {
            (
                BuildWarning::Fault { structure, member, fault },
                BuildWarning::Fault { structure: s2, member: m2, fault: f2 },
            ) => *structure == *s2 && *member == *m2 && *fault == *f2,
            (
                BuildWarning::Mismatch { structure, member, wanted, value },
                BuildWarning::Mismatch { structure: s2, member: m2, wanted: w2, value: v2 },
            ) => *structure == *s2 && *member == *m2 && *wanted == *w2 && value.same(v2),
            (
                BuildWarning::Element { structure, member, value },
                BuildWarning::Element { structure: s2, member: m2, value: v2 },
            ) => *structure == *s2 && *member == *m2 && value.same(v2),
            _ => false,
        }
    }
}

/// Adds a warning, unless one that reads alike is there already.
pub fn warn_once(ws: &mut Vec<BuildWarning>, w: BuildWarning)
    ensures
        warnings_view(final(ws)@) == warned(warnings_view(old(ws)@), w@),
{
    let ghost before = ws@;
    let mut i: usize = 0;
    while i < ws.len()
        invariant
            i <= ws@.len(),
            ws@ == before,
            before == old(ws)@,
            forall|k: int|
                0 <= k < i ==> !alike_warnings(#[trigger] warnings_view(before)[k], w@),
        decreases ws@.len() - i,
    {
        assert(warnings_view(before)[i as int] == ws@[i as int]@);
        if ws[i].same(&w) {
            return;
        }
        i += 1;
    }
    ws.push(w);
    assert(warnings_view(ws@) =~= warnings_view(before).push(w@));
}

} // verus!
