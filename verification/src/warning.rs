//! What a walk over a self-describing file could not decode faithfully.

use vstd::prelude::*;
use vstd::string::*;

use crate::text::{push_decimal, push_hex_lower};

verus! {

/// How many warnings a walk keeps.
pub const MAX_WARNINGS: usize = 200;

/// Why a member of a structure could not be decoded.
#[derive(Debug, Clone, Copy, PartialEq, Eq, Structural)]
pub enum MemberFault {
    UnknownType(u8),
    Bounds { len: u64, at: u64 },
    BlockBounds { len: u64, block: u64, at: u64 },
    EnumSubtype(u8),
    FlagsSubtype(u8),
    StructureSubtype(u8),
    MapSubtype(u8),
    DanglingStructure,
    StructureDangles,
    StringDangles,
    DataBlockDangles,
    ArrayWithoutInfo,
    ArrayHeader,
    ArrayDangles,
    ElementType(u8),
    ElementBounds(u64),
    ElementDangles(u64),
    MapHeader,
    MapWithoutInfo,
    MapDangles,
    MapPair(u32),
}

impl MemberFault {
    /// The fault in words.
    pub fn message(&self) -> (r: String)
        ensures
            r@ == self.text(),
    {
        let mut out = String::new();
        match self {
            MemberFault::UnknownType(ty) => {
                out.append("unknown member type ");
                out.append("0x");
                push_hex_lower(&mut out, *ty as u64, 2);
            },
            MemberFault::Bounds { len, at } => {
                push_decimal(&mut out, *len as u64);
                out.append(" bytes at ");
                push_decimal(&mut out, *at as u64);
                out.append(" out of bounds");
            },
            MemberFault::BlockBounds { len, block, at } => {
                push_decimal(&mut out, *len as u64);
                out.append(" bytes at block ");
                push_decimal(&mut out, *block as u64);
                out.append(" offset ");
                push_decimal(&mut out, *at as u64);
                out.append(" out of bounds");
            },
            MemberFault::EnumSubtype(s) => {
                out.append("enum subtype ");
                push_decimal(&mut out, *s as u64);
            },
            MemberFault::FlagsSubtype(s) => {
                out.append("flags subtype ");
                push_decimal(&mut out, *s as u64);
            },
            MemberFault::StructureSubtype(s) => {
                out.append("structure subtype ");
                push_decimal(&mut out, *s as u64);
            },
            MemberFault::MapSubtype(s) => {
                out.append("map subtype ");
                push_decimal(&mut out, *s as u64);
            },
            MemberFault::DanglingStructure => {
                out.append("dangling structure pointer");
            },
            MemberFault::StructureDangles => {
                out.append("structure pointer dangles");
            },
            MemberFault::StringDangles => {
                out.append("string pointer dangles");
            },
            MemberFault::DataBlockDangles => {
                out.append("data block pointer dangles");
            },
            MemberFault::ArrayWithoutInfo => {
                out.append("array without ARRAYINFO");
            },
            MemberFault::ArrayHeader => {
                out.append("array header out of bounds");
            },
            MemberFault::ArrayDangles => {
                out.append("array pointer dangles");
            },
            MemberFault::ElementType(ty) => {
                out.append("array element type ");
                out.append("0x");
                push_hex_lower(&mut out, *ty as u64, 2);
                out.append(" unknown");
            },
            MemberFault::ElementBounds(n) => {
                out.append("pointer array element ");
                push_decimal(&mut out, *n as u64);
                out.append(" out of bounds");
            },
            MemberFault::ElementDangles(n) => {
                out.append("pointer array element ");
                push_decimal(&mut out, *n as u64);
                out.append(" dangles");
            },
            MemberFault::MapHeader => {
                out.append("map header out of bounds");
            },
            MemberFault::MapWithoutInfo => {
                out.append("map without ARRAYINFO");
            },
            MemberFault::MapDangles => {
                out.append("map pointer dangles");
            },
            MemberFault::MapPair(h) => {
                out.append("map pair structure ");
                out.append("0x");
                push_hex_lower(&mut out, *h as u64, 8);
                out.append(" unknown");
            },
        }
        assert(out@ =~= self.text());
        out
    }

    /// The fault in words.
    pub open spec fn text(&self) -> Seq<char> {
        match self {
            MemberFault::UnknownType(ty) => "unknown member type "@ + "0x"@ + crate::text::hex_lower(*ty as nat, 2),
            MemberFault::Bounds { len, at } => crate::text::decimal(*len as nat) + " bytes at "@ + crate::text::decimal(*at as nat) + " out of bounds"@,
            MemberFault::BlockBounds { len, block, at } => crate::text::decimal(*len as nat) + " bytes at block "@ + crate::text::decimal(*block as nat) + " offset "@ + crate::text::decimal(*at as nat) + " out of bounds"@,
            MemberFault::EnumSubtype(s) => "enum subtype "@ + crate::text::decimal(*s as nat),
            MemberFault::FlagsSubtype(s) => "flags subtype "@ + crate::text::decimal(*s as nat),
            MemberFault::StructureSubtype(s) => "structure subtype "@ + crate::text::decimal(*s as nat),
            MemberFault::MapSubtype(s) => "map subtype "@ + crate::text::decimal(*s as nat),
            MemberFault::DanglingStructure => "dangling structure pointer"@,
            MemberFault::StructureDangles => "structure pointer dangles"@,
            MemberFault::StringDangles => "string pointer dangles"@,
            MemberFault::DataBlockDangles => "data block pointer dangles"@,
            MemberFault::ArrayWithoutInfo => "array without ARRAYINFO"@,
            MemberFault::ArrayHeader => "array header out of bounds"@,
            MemberFault::ArrayDangles => "array pointer dangles"@,
            MemberFault::ElementType(ty) => "array element type "@ + "0x"@ + crate::text::hex_lower(*ty as nat, 2) + " unknown"@,
            MemberFault::ElementBounds(n) => "pointer array element "@ + crate::text::decimal(*n as nat) + " out of bounds"@,
            MemberFault::ElementDangles(n) => "pointer array element "@ + crate::text::decimal(*n as nat) + " dangles"@,
            MemberFault::MapHeader => "map header out of bounds"@,
            MemberFault::MapWithoutInfo => "map without ARRAYINFO"@,
            MemberFault::MapDangles => "map pointer dangles"@,
            MemberFault::MapPair(h) => "map pair structure "@ + "0x"@ + crate::text::hex_lower(*h as nat, 8) + " unknown"@,
        }
    }
}

/// Something that a walk could not decode faithfully.
#[derive(Debug, Clone, Copy, PartialEq, Eq, Structural)]
pub enum Warning {
    RootMissing,
    RootBlock(u32),
    TooDeep,
    NoSchema(u32),
    Member { structure: u32, member: u32, fault: MemberFault },
    StringBounds { len: u64, at: u64 },
    StringPointerBounds(u64),
    StringPointerDangles(u64),
    CharPointerBounds(u64),
    CharPointerDangles(u64),
    HashBounds(u64),
    StringSubtype { subtype: u8, at: u64 },
    ElementType(u8),
    ElementBounds { n: u64, at: u64 },
    BlockElementBounds { n: u64, block: u64, at: u64 },
    PointerBounds(u64),
    PointerDangles(u64),
    StringDangles(u64),
    StructureBounds(u64),
    ArrayWithoutSchema(u32),
    ZeroLengthStrings,
    StringArraySubtype(u8),
    ArrayOfFlags,
    ArrayOfMaps,
}

impl Warning {
    /// The warning in words.
    pub fn message(&self) -> (r: String)
        ensures
            r@ == self.text(),
    {
        let mut out = String::new();
        match self {
            Warning::RootMissing => {
                out.append("root block missing");
            },
            Warning::RootBlock(id) => {
                out.append("root block ");
                push_decimal(&mut out, *id as u64);
                out.append(" not in the block table");
            },
            Warning::TooDeep => {
                out.append("structure nesting deeper than 64");
            },
            Warning::NoSchema(h) => {
                out.append("no schema for structure ");
                out.append("0x");
                push_hex_lower(&mut out, *h as u64, 8);
            },
            Warning::Member { structure, member, fault } => {
                out.append("0x");
                push_hex_lower(&mut out, *structure as u64, 8);
                out.append(".");
                out.append("0x");
                push_hex_lower(&mut out, *member as u64, 8);
                out.append(": ");
                let inner = fault.message();
                out.append(inner.as_str());
            },
            Warning::StringBounds { len, at } => {
                out.append("string of ");
                push_decimal(&mut out, *len as u64);
                out.append(" bytes at ");
                push_decimal(&mut out, *at as u64);
                out.append(" out of bounds");
            },
            Warning::StringPointerBounds(at) => {
                out.append("string pointer at ");
                push_decimal(&mut out, *at as u64);
                out.append(" out of bounds");
            },
            Warning::StringPointerDangles(at) => {
                out.append("string pointer at ");
                push_decimal(&mut out, *at as u64);
                out.append(" dangles");
            },
            Warning::CharPointerBounds(at) => {
                out.append("char pointer at ");
                push_decimal(&mut out, *at as u64);
                out.append(" out of bounds");
            },
            Warning::CharPointerDangles(at) => {
                out.append("char pointer at ");
                push_decimal(&mut out, *at as u64);
                out.append(" dangles");
            },
            Warning::HashBounds(at) => {
                out.append("hash at ");
                push_decimal(&mut out, *at as u64);
                out.append(" out of bounds");
            },
            Warning::StringSubtype { subtype, at } => {
                out.append("string subtype ");
                push_decimal(&mut out, *subtype as u64);
                out.append(" at ");
                push_decimal(&mut out, *at as u64);
            },
            Warning::ElementType(ty) => {
                out.append("array element type ");
                out.append("0x");
                push_hex_lower(&mut out, *ty as u64, 2);
                out.append(" unknown");
            },
            Warning::ElementBounds { n, at } => {
                out.append("array element ");
                push_decimal(&mut out, *n as u64);
                out.append(" at ");
                push_decimal(&mut out, *at as u64);
                out.append(" out of bounds");
            },
            Warning::BlockElementBounds { n, block, at } => {
                out.append("array element ");
                push_decimal(&mut out, *n as u64);
                out.append(" at block ");
                push_decimal(&mut out, *block as u64);
                out.append(" offset ");
                push_decimal(&mut out, *at as u64);
                out.append(" out of bounds");
            },
            Warning::PointerBounds(n) => {
                out.append("pointer array element ");
                push_decimal(&mut out, *n as u64);
                out.append(" out of bounds");
            },
            Warning::PointerDangles(n) => {
                out.append("pointer array element ");
                push_decimal(&mut out, *n as u64);
                out.append(" dangles");
            },
            Warning::StringDangles(n) => {
                out.append("string array element ");
                push_decimal(&mut out, *n as u64);
                out.append(" dangles");
            },
            Warning::StructureBounds(n) => {
                out.append("structure array element ");
                push_decimal(&mut out, *n as u64);
                out.append(" out of bounds");
            },
            Warning::ArrayWithoutSchema(h) => {
                out.append("array of structure ");
                out.append("0x");
                push_hex_lower(&mut out, *h as u64, 8);
                out.append(" without a schema");
            },
            Warning::ZeroLengthStrings => {
                out.append("array of zero-length strings");
            },
            Warning::StringArraySubtype(s) => {
                out.append("string array subtype ");
                push_decimal(&mut out, *s as u64);
            },
            Warning::ArrayOfFlags => {
                out.append("array of Flags elements");
            },
            Warning::ArrayOfMaps => {
                out.append("array of Map elements");
            },
        }
        assert(out@ =~= self.text());
        out
    }

    /// The warning in words.
    pub open spec fn text(&self) -> Seq<char> {
        match self {
            Warning::RootMissing => "root block missing"@,
            Warning::RootBlock(id) => "root block "@ + crate::text::decimal(*id as nat) + " not in the block table"@,
            Warning::TooDeep => "structure nesting deeper than 64"@,
            Warning::NoSchema(h) => "no schema for structure "@ + "0x"@ + crate::text::hex_lower(*h as nat, 8),
            Warning::Member { structure, member, fault } => "0x"@ + crate::text::hex_lower(*structure as nat, 8) + "."@ + "0x"@ + crate::text::hex_lower(*member as nat, 8) + ": "@ + fault.text(),
            Warning::StringBounds { len, at } => "string of "@ + crate::text::decimal(*len as nat) + " bytes at "@ + crate::text::decimal(*at as nat) + " out of bounds"@,
            Warning::StringPointerBounds(at) => "string pointer at "@ + crate::text::decimal(*at as nat) + " out of bounds"@,
            Warning::StringPointerDangles(at) => "string pointer at "@ + crate::text::decimal(*at as nat) + " dangles"@,
            Warning::CharPointerBounds(at) => "char pointer at "@ + crate::text::decimal(*at as nat) + " out of bounds"@,
            Warning::CharPointerDangles(at) => "char pointer at "@ + crate::text::decimal(*at as nat) + " dangles"@,
            Warning::HashBounds(at) => "hash at "@ + crate::text::decimal(*at as nat) + " out of bounds"@,
            Warning::StringSubtype { subtype, at } => "string subtype "@ + crate::text::decimal(*subtype as nat) + " at "@ + crate::text::decimal(*at as nat),
            Warning::ElementType(ty) => "array element type "@ + "0x"@ + crate::text::hex_lower(*ty as nat, 2) + " unknown"@,
            Warning::ElementBounds { n, at } => "array element "@ + crate::text::decimal(*n as nat) + " at "@ + crate::text::decimal(*at as nat) + " out of bounds"@,
            Warning::BlockElementBounds { n, block, at } => "array element "@ + crate::text::decimal(*n as nat) + " at block "@ + crate::text::decimal(*block as nat) + " offset "@ + crate::text::decimal(*at as nat) + " out of bounds"@,
            Warning::PointerBounds(n) => "pointer array element "@ + crate::text::decimal(*n as nat) + " out of bounds"@,
            Warning::PointerDangles(n) => "pointer array element "@ + crate::text::decimal(*n as nat) + " dangles"@,
            Warning::StringDangles(n) => "string array element "@ + crate::text::decimal(*n as nat) + " dangles"@,
            Warning::StructureBounds(n) => "structure array element "@ + crate::text::decimal(*n as nat) + " out of bounds"@,
            Warning::ArrayWithoutSchema(h) => "array of structure "@ + "0x"@ + crate::text::hex_lower(*h as nat, 8) + " without a schema"@,
            Warning::ZeroLengthStrings => "array of zero-length strings"@,
            Warning::StringArraySubtype(s) => "string array subtype "@ + crate::text::decimal(*s as nat),
            Warning::ArrayOfFlags => "array of Flags elements"@,
            Warning::ArrayOfMaps => "array of Map elements"@,
        }
    }
}

/// The warnings that are kept of all that came up.
pub open spec fn capped(all: Seq<Warning>) -> Seq<Warning> {
    if all.len() <= 200 {
        all
    } else {
        all.take(200)
    }
}

/// Capping early loses nothing that is kept in the end.
pub broadcast proof fn lemma_capped(a: Seq<Warning>, b: Seq<Warning>)
    ensures
        #[trigger] capped(capped(a) + b) == capped(a + b),
{
    if a.len() > 200 {
        assert((capped(a) + b).take(200) =~= a.take(200));
        assert((a + b).take(200) =~= a.take(200));
        assert(capped(a) + b =~= a.take(200) + b);
        if b.len() == 0 {
            assert(capped(a) + b =~= a.take(200));
            assert(a + b =~= a);
        }
    }
}

/// Adds a warning, unless enough are kept already.
pub fn push_warning(list: &mut Vec<Warning>, w: Warning)
    requires
        old(list)@.len() <= 200,
    ensures
        final(list)@ == capped(old(list)@.push(w)),
        final(list)@.len() <= 200,
{
    let ghost start = list@;
    if list.len() < MAX_WARNINGS {
        list.push(w);
    } else {
        assert(start.push(w).take(200) =~= start);
    }
}

} // verus!
