//! What a writer knows about the structures it may meet: structure and enum
//! definitions from a text table or from a file that carries its own.

use std::collections::HashMap;
use vstd::prelude::*;
use vstd::slice::*;
use vstd::string::*;

use crate::chars::{parse_signed, parse_unsigned, same_chars, split_at_char, split_words, trim};
use crate::meta_block::MetaError;
use crate::meta_schema::read_table;
use crate::pso::{u16_be, u32_be, PSO_MAGIC};
use crate::resource::{
    prepare_rsc7, u16_le, u32_le, u64_le, ResReader, ResourceError, RSC7_MAGIC, SYSTEM_BASE,
};
use crate::text::{chars_of, push_decimal, push_hex_lower, string_of};

verus! {

broadcast use {vstd::slice::group_slice_axioms, vstd::std_specs::hash::group_hash_axioms};

/// The pseudo-name of an array's element descriptor entry.
pub const ARRAYINFO: u32 = 0x100;

/// The schema section of a PSO file.
pub const SECTION_PSCH: u32 = 0x5053_4348;

/// What can be wrong with a schema table, or with a file that should carry
/// its schema.
#[derive(Debug)]
pub enum SchemaError {
    BadHash(String),
    BadNumber(String),
    /// A record of this line ends before its fixed fields do.
    Missing { line: usize },
    Member { line: usize, text: String },
    EnumMember { line: usize, text: String },
    Kind { line: usize, text: String },
    Meta(MetaError),
    SectionBounds { ident: u32, pos: usize },
    Truncated,
    EntryType(u32),
    NoSchema,
}

/// The model of a [`SchemaError`].
pub enum SchemaErrorView {
    BadHash(Seq<char>),
    BadNumber(Seq<char>),
    Missing { line: int },
    Member { line: int, text: Seq<char> },
    EnumMember { line: int, text: Seq<char> },
    Kind { line: int, text: Seq<char> },
    Meta(MetaError),
    SectionBounds { ident: u32, pos: int },
    Truncated,
    EntryType(u32),
    NoSchema,
}

impl View for SchemaError {
    type V = SchemaErrorView;

    open spec fn view(&self) -> SchemaErrorView {
        match self {
            SchemaError::BadHash(s) => SchemaErrorView::BadHash(s@),
            SchemaError::BadNumber(s) => SchemaErrorView::BadNumber(s@),
            SchemaError::Missing { line } => SchemaErrorView::Missing { line: *line as int },
            SchemaError::Member { line, text } => SchemaErrorView::Member {
                line: *line as int,
                text: text@,
            },
            SchemaError::EnumMember { line, text } => SchemaErrorView::EnumMember {
                line: *line as int,
                text: text@,
            },
            SchemaError::Kind { line, text } => SchemaErrorView::Kind {
                line: *line as int,
                text: text@,
            },
            SchemaError::Meta(e) => SchemaErrorView::Meta(*e),
            SchemaError::SectionBounds { ident, pos } => SchemaErrorView::SectionBounds {
                ident: *ident,
                pos: *pos as int,
            },
            SchemaError::Truncated => SchemaErrorView::Truncated,
            SchemaError::EntryType(k) => SchemaErrorView::EntryType(*k),
            SchemaError::NoSchema => SchemaErrorView::NoSchema,
        }
    }
}

impl SchemaError {
    /// The error in words.
    pub fn message(&self) -> (r: String)
        ensures
            r@ == self.text(),
    {
        let mut out = String::new();
        match self {
            SchemaError::BadHash(text) => {
                out.append("bad hash '");
                out.append(text.as_str());
                out.append("'");
            },
            SchemaError::BadNumber(text) => {
                out.append("bad number '");
                out.append(text.as_str());
                out.append("'");
            },
            SchemaError::Missing { line } => {
                out.append("schema table line ");
                push_decimal(&mut out, *line as u64);
            },
            SchemaError::Member { line, text } => {
                out.append("schema table line ");
                push_decimal(&mut out, *line as u64);
                out.append(": malformed member '");
                out.append(text.as_str());
                out.append("'");
            },
            SchemaError::EnumMember { line, text } => {
                out.append("schema table line ");
                push_decimal(&mut out, *line as u64);
                out.append(": malformed enum member '");
                out.append(text.as_str());
                out.append("'");
            },
            SchemaError::Kind { line, text } => {
                out.append("schema table line ");
                push_decimal(&mut out, *line as u64);
                out.append(": unknown record kind '");
                out.append(text.as_str());
                out.append("'");
            },
            SchemaError::Meta(e) => {
                let inner = e.message();
                out.append(inner.as_str());
            },
            SchemaError::SectionBounds { ident, pos } => {
                out.append("pso: section ");
                out.append("0x");
                push_hex_lower(&mut out, *ident as u64, 8);
                out.append(" at ");
                push_decimal(&mut out, *pos as u64);
                out.append(" runs past the end of the file");
            },
            SchemaError::Truncated => {
                out.append("pso: schema runs past the end of its section");
            },
            SchemaError::EntryType(kind) => {
                out.append("pso: unknown schema entry type ");
                push_decimal(&mut out, *kind as u64);
            },
            SchemaError::NoSchema => {
                out.append("not an RSC7 Meta or PSO file; only those carry a schema");
            },
        }
        assert(out@ =~= self.text());
        out
    }

    /// The error in words.
    pub open spec fn text(&self) -> Seq<char> {
        match self {
            SchemaError::BadHash(text) => "bad hash '"@ + text@ + "'"@,
            SchemaError::BadNumber(text) => "bad number '"@ + text@ + "'"@,
            SchemaError::Missing { line } => "schema table line "@ + crate::text::decimal(*line as nat),
            SchemaError::Member { line, text } => "schema table line "@ + crate::text::decimal(*line as nat) + ": malformed member '"@ + text@ + "'"@,
            SchemaError::EnumMember { line, text } => "schema table line "@ + crate::text::decimal(*line as nat) + ": malformed enum member '"@ + text@ + "'"@,
            SchemaError::Kind { line, text } => "schema table line "@ + crate::text::decimal(*line as nat) + ": unknown record kind '"@ + text@ + "'"@,
            SchemaError::Meta(e) => e.text(),
            SchemaError::SectionBounds { ident, pos } => "pso: section "@ + "0x"@ + crate::text::hex_lower(*ident as nat, 8) + " at "@ + crate::text::decimal(*pos as nat) + " runs past the end of the file"@,
            SchemaError::Truncated => "pso: schema runs past the end of its section"@,
            SchemaError::EntryType(kind) => "pso: unknown schema entry type "@ + crate::text::decimal(*kind as nat),
            SchemaError::NoSchema => "not an RSC7 Meta or PSO file; only those carry a schema"@,
        }
    }
}

#[derive(Debug, Clone, Copy, PartialEq, Eq, Structural)]
pub struct MetaEntryDef {
    pub name: u32,
    pub offset: u32,
    pub ty: u8,
    pub unk9: u8,
    /// For an array member, the index of its `ARRAYINFO` entry.
    pub ref_index: i16,
    /// A structure or enum name hash, or a length, depending on the type.
    pub ref_key: u32,
}

#[derive(Debug, PartialEq, Eq)]
pub struct MetaStructDef {
    pub name: u32,
    pub key: u32,
    pub unk8: u32,
    pub size: u32,
    pub entries: Vec<MetaEntryDef>,
}

#[derive(Debug, PartialEq, Eq)]
pub struct MetaEnumDef {
    pub name: u32,
    pub key: u32,
    pub entries: Vec<(u32, i32)>,
}

#[derive(Debug, Clone, Copy, PartialEq, Eq, Structural)]
pub struct PsoEntryDef {
    pub name: u32,
    pub ty: u8,
    pub subtype: u8,
    pub offset: u16,
    pub ref_key: u32,
}

#[derive(Debug, PartialEq, Eq)]
pub struct PsoStructDef {
    pub name: u32,
    pub ty: u8,
    pub unk: u8,
    pub size: u32,
    pub entries: Vec<PsoEntryDef>,
}

#[derive(Debug, PartialEq, Eq)]
pub struct PsoEnumDef {
    pub name: u32,
    pub ty: u8,
    pub entries: Vec<(u32, i32)>,
}

/// The model of a [`MetaStructDef`].
#[verifier::ext_equal]
pub struct MetaStructDefView {
    pub name: u32,
    pub key: u32,
    pub unk8: u32,
    pub size: u32,
    pub entries: Seq<MetaEntryDef>,
}

/// The model of a [`MetaEnumDef`].
#[verifier::ext_equal]
pub struct MetaEnumDefView {
    pub name: u32,
    pub key: u32,
    pub entries: Seq<(u32, i32)>,
}

/// The model of a [`PsoStructDef`].
#[verifier::ext_equal]
pub struct PsoStructDefView {
    pub name: u32,
    pub ty: u8,
    pub unk: u8,
    pub size: u32,
    pub entries: Seq<PsoEntryDef>,
}

/// The model of a [`PsoEnumDef`].
#[verifier::ext_equal]
pub struct PsoEnumDefView {
    pub name: u32,
    pub ty: u8,
    pub entries: Seq<(u32, i32)>,
}

impl View for MetaStructDef {
    type V = MetaStructDefView;

    open spec fn view(&self) -> MetaStructDefView {
        MetaStructDefView {
            name: self.name,
            key: self.key,
            unk8: self.unk8,
            size: self.size,
            entries: self.entries@,
        }
    }
}

impl View for MetaEnumDef {
    type V = MetaEnumDefView;

    open spec fn view(&self) -> MetaEnumDefView {
        MetaEnumDefView { name: self.name, key: self.key, entries: self.entries@ }
    }
}

impl View for PsoStructDef {
    type V = PsoStructDefView;

    open spec fn view(&self) -> PsoStructDefView {
        PsoStructDefView {
            name: self.name,
            ty: self.ty,
            unk: self.unk,
            size: self.size,
            entries: self.entries@,
        }
    }
}

impl View for PsoEnumDef {
    type V = PsoEnumDefView;

    open spec fn view(&self) -> PsoEnumDefView {
        PsoEnumDefView { name: self.name, ty: self.ty, entries: self.entries@ }
    }
}

/// The first member of that name from `i` on.
pub open spec fn meta_entry_of(entries: Seq<MetaEntryDef>, name: u32, i: int) -> Option<MetaEntryDef>
    decreases entries.len() - i,
{
    if i >= entries.len() {
        None
    } else if entries[i].name == name {
        Some(entries[i])
    } else {
        meta_entry_of(entries, name, i + 1)
    }
}

/// The first member of that name from `i` on.
pub open spec fn pso_entry_of(entries: Seq<PsoEntryDef>, name: u32, i: int) -> Option<PsoEntryDef>
    decreases entries.len() - i,
{
    if i >= entries.len() {
        None
    } else if entries[i].name == name {
        Some(entries[i])
    } else {
        pso_entry_of(entries, name, i + 1)
    }
}

impl MetaStructDef {
    /// The member of that name.
    pub fn entry(&self, name: u32) -> (r: Option<&MetaEntryDef>)
        ensures
            meta_entry_of(self.entries@, name, 0) == (match r {
                Some(e) => Some(*e),
                None => None,
            }),
    {
        let mut i: usize = 0;
        while i < self.entries.len()
            invariant
                i <= self.entries@.len(),
                meta_entry_of(self.entries@, name, 0) == meta_entry_of(
                    self.entries@,
                    name,
                    i as int,
                ),
            decreases self.entries@.len() - i,
        {
            if self.entries[i].name == name {
                return Some(&self.entries[i]);
            }
            i += 1;
        }
        None
    }
}

impl PsoStructDef {
    /// The member of that name.
    pub fn entry(&self, name: u32) -> (r: Option<&PsoEntryDef>)
        ensures
            pso_entry_of(self.entries@, name, 0) == (match r {
                Some(e) => Some(*e),
                None => None,
            }),
    {
        let mut i: usize = 0;
        while i < self.entries.len()
            invariant
                i <= self.entries@.len(),
                pso_entry_of(self.entries@, name, 0) == pso_entry_of(
                    self.entries@,
                    name,
                    i as int,
                ),
            decreases self.entries@.len() - i,
        {
            if self.entries[i].name == name {
                return Some(&self.entries[i]);
            }
            i += 1;
        }
        None
    }
}

/// Everything a writer needs to know about the structures it may meet.
#[derive(Debug, PartialEq, Eq)]
pub struct Schema {
    pub meta_structs: HashMap<u32, MetaStructDef>,
    pub meta_enums: HashMap<u32, MetaEnumDef>,
    pub pso_structs: HashMap<u32, PsoStructDef>,
    pub pso_enums: HashMap<u32, PsoEnumDef>,
}

/// The model of a [`Schema`].
#[verifier::ext_equal]
pub struct SchemaView {
    pub meta_structs: Map<u32, MetaStructDefView>,
    pub meta_enums: Map<u32, MetaEnumDefView>,
    pub pso_structs: Map<u32, PsoStructDefView>,
    pub pso_enums: Map<u32, PsoEnumDefView>,
}

impl View for Schema {
    type V = SchemaView;

    open spec fn view(&self) -> SchemaView {
        SchemaView {
            meta_structs: self.meta_structs@.map_values(|d: MetaStructDef| d@),
            meta_enums: self.meta_enums@.map_values(|d: MetaEnumDef| d@),
            pso_structs: self.pso_structs@.map_values(|d: PsoStructDef| d@),
            pso_enums: self.pso_enums@.map_values(|d: PsoEnumDef| d@),
        }
    }
}

/// A schema that knows nothing.
pub open spec fn no_schema() -> SchemaView {
    SchemaView {
        meta_structs: Map::empty(),
        meta_enums: Map::empty(),
        pso_structs: Map::empty(),
        pso_enums: Map::empty(),
    }
}

impl Default for Schema {
    fn default() -> (s: Self)
        ensures
            s@ == no_schema(),
    {
        let s = Schema {
            meta_structs: HashMap::new(),
            meta_enums: HashMap::new(),
            pso_structs: HashMap::new(),
            pso_enums: HashMap::new(),
        };
        assert(s@ =~= no_schema());
        s
    }
}

// ─── the text table ──────────────────────────────────────────────────────────

/// The hash that a word writes.
pub open spec fn hash_word(t: Seq<char>) -> Result<u32, SchemaErrorView> {
    match crate::chars::unsigned(t, true, u32::MAX as int) {
        Some(n) => Ok(n as u32),
        None => Err(SchemaErrorView::BadHash(t)),
    }
}

/// The number that a word writes.
pub open spec fn number_word(t: Seq<char>) -> Result<i64, SchemaErrorView> {
    match crate::chars::signed(t, false) {
        Some(n) => Ok(n as i64),
        None => Err(SchemaErrorView::BadNumber(t)),
    }
}

/// The hash that word `i` of a record writes.
pub open spec fn hash_field(words: Seq<Seq<char>>, i: int, line: int) -> Result<
    u32,
    SchemaErrorView,
> {
    if i < words.len() {
        hash_word(words[i])
    } else {
        Err(SchemaErrorView::Missing { line })
    }
}

/// The number that word `i` of a record writes.
pub open spec fn number_field(words: Seq<Seq<char>>, i: int, line: int) -> Result<
    i64,
    SchemaErrorView,
> {
    if i < words.len() {
        number_word(words[i])
    } else {
        Err(SchemaErrorView::Missing { line })
    }
}

fn read_hash(t: &Vec<char>) -> (r: Result<u32, SchemaError>)
    ensures
        hash_word(t@) == viewed(r),
{
    match parse_unsigned(t.as_slice(), true, 0xFFFF_FFFF) {
        Some(n) => Ok(n as u32),
        None => Err(SchemaError::BadHash(string_of(t.as_slice()))),
    }
}

fn read_number(t: &Vec<char>) -> (r: Result<i64, SchemaError>)
    ensures
        number_word(t@) == viewed(r),
{
    match parse_signed(t.as_slice(), false) {
        Some(n) => Ok(n),
        None => Err(SchemaError::BadNumber(string_of(t.as_slice()))),
    }
}

fn read_hash_field(words: &Vec<Vec<char>>, i: usize, line: usize) -> (r: Result<u32, SchemaError>)
    ensures
        hash_field(crate::chars::runs(words@), i as int, line as int) == viewed(r),
{
    if i < words.len() {
        assert(crate::chars::runs(words@)[i as int] == words@[i as int]@);
        read_hash(&words[i])
    } else {
        Err(SchemaError::Missing { line })
    }
}

fn read_number_field(words: &Vec<Vec<char>>, i: usize, line: usize) -> (r: Result<i64, SchemaError>)
    ensures
        number_field(crate::chars::runs(words@), i as int, line as int) == viewed(r),
{
    if i < words.len() {
        assert(crate::chars::runs(words@)[i as int] == words@[i as int]@);
        read_number(&words[i])
    } else {
        Err(SchemaError::Missing { line })
    }
}

/// A result with its error by its model.
pub open spec fn viewed<T>(r: Result<T, SchemaError>) -> Result<T, SchemaErrorView> {
    match r {
        Ok(v) => Ok(v),
        Err(e) => Err(e@),
    }
}

/// The enum member `name,value` that a word writes.
pub open spec fn enumerator_word(t: Seq<char>, line: int) -> Result<(u32, i32), SchemaErrorView> {
    let at = crate::chars::next_char(t, ',', 0);
    if at >= t.len() {
        Err(SchemaErrorView::EnumMember { line, text: t })
    } else {
        match (hash_word(t.take(at)), number_word(t.skip(at + 1))) {
            (Err(e), _) => Err(e),
            (_, Err(e)) => Err(e),
            (Ok(n), Ok(v)) => Ok((n, v as i32)),
        }
    }
}

fn read_enumerator(t: &Vec<char>, line: usize) -> (r: Result<(u32, i32), SchemaError>)
    ensures
        enumerator_word(t@, line as int) == viewed(r),
{
    let mut at: usize = 0;
    while at < t.len() && t[at] != ','
        invariant
            at <= t@.len(),
            crate::chars::next_char(t@, ',', 0) == crate::chars::next_char(t@, ',', at as int),
        decreases t@.len() - at,
    {
        at += 1;
    }
    if at >= t.len() {
        return Err(SchemaError::EnumMember { line, text: string_of(t.as_slice()) });
    }
    let name = crate::chars::copy_chars(t.as_slice(), 0, at);
    let value = crate::chars::copy_chars(t.as_slice(), at + 1, t.len());
    assert(name@ =~= t@.take(at as int));
    assert(value@ =~= t@.skip(at + 1));
    match read_hash(&name) {
        Err(e) => Err(e),
        Ok(n) => match read_number(&value) {
            Err(e) => Err(e),
            Ok(v) => Ok((n, v as i32)),
        },
    }
}

/// The enum members that words `from` to `k` write.
pub open spec fn enumerator_words(words: Seq<Seq<char>>, from: int, k: int, line: int) -> Result<
    Seq<(u32, i32)>,
    SchemaErrorView,
>
    decreases k - from,
{
    if k <= from {
        Ok(Seq::empty())
    } else {
        match enumerator_words(words, from, k - 1, line) {
            Err(e) => Err(e),
            Ok(before) => match enumerator_word(words[k - 1], line) {
                Err(e) => Err(e),
                Ok(v) => Ok(before.push(v)),
            },
        }
    }
}

proof fn lemma_enumerator_err(words: Seq<Seq<char>>, from: int, j: int, k: int, line: int)
    requires
        from <= j <= k,
        enumerator_words(words, from, j, line) is Err,
    ensures
        enumerator_words(words, from, k, line) == enumerator_words(words, from, j, line),
    decreases k - j,
{
    if j < k {
        lemma_enumerator_err(words, from, j, k - 1, line);
    }
}

fn read_enumerators(words: &Vec<Vec<char>>, from: usize, line: usize) -> (r: Result<
    Vec<(u32, i32)>,
    SchemaError,
>)
    ensures
        enumerator_words(
            crate::chars::runs(words@),
            from as int,
            words@.len() as int,
            line as int,
        ) == (match r {
            Ok(v) => Ok(v@),
            Err(e) => Err(e@),
        }),
{
    let ghost all = crate::chars::runs(words@);
    let mut out: Vec<(u32, i32)> = Vec::new();
    let mut k: usize = from;
    while k < words.len()
        invariant
            from <= k,
            k <= words@.len() || k == from,
            all == crate::chars::runs(words@),
            enumerator_words(all, from as int, k as int, line as int) == Ok::<
                Seq<(u32, i32)>,
                SchemaErrorView,
            >(out@),
        decreases words@.len() - k,
    {
        assert(all[k as int] == words@[k as int]@);
        match read_enumerator(&words[k], line) {
            Ok(v) => {
                out.push(v);
            },
            Err(e) => {
                proof {
                    lemma_enumerator_err(
                        all,
                        from as int,
                        k + 1,
                        words@.len() as int,
                        line as int,
                    );
                }
                return Err(e);
            },
        }
        k += 1;
    }
    Ok(out)
}

/// The member that a word of 6 comma-separated fields writes.
pub open spec fn meta_member_word(t: Seq<char>, line: int) -> Result<MetaEntryDef, SchemaErrorView> {
    let f = crate::chars::pieces(t, ',');
    if f.len() != 6 {
        Err(SchemaErrorView::Member { line, text: t })
    } else {
        match hash_word(f[0]) { Err(e) => Err(e), Ok(v0) => match number_word(f[1]) { Err(e) => Err(e), Ok(v1) => match hash_word(f[2]) { Err(e) => Err(e), Ok(v2) => match number_word(f[3]) { Err(e) => Err(e), Ok(v3) => match number_word(f[4]) { Err(e) => Err(e), Ok(v4) => match hash_word(f[5]) { Err(e) => Err(e), Ok(v5) => Ok(MetaEntryDef { name: v0, offset: v1 as u32, ty: v2 as u8, unk9: v3 as u8, ref_index: v4 as i16, ref_key: v5 }) } } } } } }
    }
}

fn read_meta_member(t: &Vec<char>, line: usize) -> (r: Result<MetaEntryDef, SchemaError>)
    ensures
        meta_member_word(t@, line as int) == viewed(r),
{
    let f = split_at_char(t.as_slice(), ',');
    let ghost texts = crate::chars::runs(f@);
    if f.len() != 6 {
        return Err(SchemaError::Member { line, text: string_of(t.as_slice()) });
    }
    assert(texts[0] == f@[0]@);
    assert(texts[1] == f@[1]@);
    assert(texts[2] == f@[2]@);
    assert(texts[3] == f@[3]@);
    assert(texts[4] == f@[4]@);
    assert(texts[5] == f@[5]@);
    match read_hash(&f[0]) { Err(e) => Err(e), Ok(v0) => match read_number(&f[1]) { Err(e) => Err(e), Ok(v1) => match read_hash(&f[2]) { Err(e) => Err(e), Ok(v2) => match read_number(&f[3]) { Err(e) => Err(e), Ok(v3) => match read_number(&f[4]) { Err(e) => Err(e), Ok(v4) => match read_hash(&f[5]) { Err(e) => Err(e), Ok(v5) => Ok(MetaEntryDef { name: v0, offset: v1 as u32, ty: v2 as u8, unk9: v3 as u8, ref_index: v4 as i16, ref_key: v5 }) } } } } } }
}

/// The members that words `from` to `k` write.
pub open spec fn meta_member_words(words: Seq<Seq<char>>, from: int, k: int, line: int) -> Result<
    Seq<MetaEntryDef>,
    SchemaErrorView,
>
    decreases k - from,
{
    if k <= from {
        Ok(Seq::empty())
    } else {
        match meta_member_words(words, from, k - 1, line) {
            Err(e) => Err(e),
            Ok(before) => match meta_member_word(words[k - 1], line) {
                Err(e) => Err(e),
                Ok(v) => Ok(before.push(v)),
            },
        }
    }
}

proof fn lemma_meta_member_err(words: Seq<Seq<char>>, from: int, j: int, k: int, line: int)
    requires
        from <= j <= k,
        meta_member_words(words, from, j, line) is Err,
    ensures
        meta_member_words(words, from, k, line) == meta_member_words(words, from, j, line),
    decreases k - j,
{
    if j < k {
        lemma_meta_member_err(words, from, j, k - 1, line);
    }
}

fn read_meta_members(words: &Vec<Vec<char>>, from: usize, line: usize) -> (r: Result<
    Vec<MetaEntryDef>,
    SchemaError,
>)
    ensures
        meta_member_words(
            crate::chars::runs(words@),
            from as int,
            words@.len() as int,
            line as int,
        ) == (match r {
            Ok(v) => Ok(v@),
            Err(e) => Err(e@),
        }),
{
    let ghost all = crate::chars::runs(words@);
    let mut out: Vec<MetaEntryDef> = Vec::new();
    let mut k: usize = from;
    while k < words.len()
        invariant
            from <= k,
            k <= words@.len() || k == from,
            all == crate::chars::runs(words@),
            meta_member_words(all, from as int, k as int, line as int) == Ok::<
                Seq<MetaEntryDef>,
                SchemaErrorView,
            >(out@),
        decreases words@.len() - k,
    {
        assert(all[k as int] == words@[k as int]@);
        match read_meta_member(&words[k], line) {
            Ok(v) => {
                out.push(v);
            },
            Err(e) => {
                proof {
                    lemma_meta_member_err(
                        all,
                        from as int,
                        k + 1,
                        words@.len() as int,
                        line as int,
                    );
                }
                return Err(e);
            },
        }
        k += 1;
    }
    Ok(out)
}

/// The member that a word of 5 comma-separated fields writes.
pub open spec fn pso_member_word(t: Seq<char>, line: int) -> Result<PsoEntryDef, SchemaErrorView> {
    let f = crate::chars::pieces(t, ',');
    if f.len() != 5 {
        Err(SchemaErrorView::Member { line, text: t })
    } else {
        match hash_word(f[0]) { Err(e) => Err(e), Ok(v0) => match hash_word(f[1]) { Err(e) => Err(e), Ok(v1) => match number_word(f[2]) { Err(e) => Err(e), Ok(v2) => match number_word(f[3]) { Err(e) => Err(e), Ok(v3) => match hash_word(f[4]) { Err(e) => Err(e), Ok(v4) => Ok(PsoEntryDef { name: v0, ty: v1 as u8, offset: v2 as u16, subtype: v3 as u8, ref_key: v4 }) } } } } }
    }
}

fn read_pso_member(t: &Vec<char>, line: usize) -> (r: Result<PsoEntryDef, SchemaError>)
    ensures
        pso_member_word(t@, line as int) == viewed(r),
{
    let f = split_at_char(t.as_slice(), ',');
    let ghost texts = crate::chars::runs(f@);
    if f.len() != 5 {
        return Err(SchemaError::Member { line, text: string_of(t.as_slice()) });
    }
    assert(texts[0] == f@[0]@);
    assert(texts[1] == f@[1]@);
    assert(texts[2] == f@[2]@);
    assert(texts[3] == f@[3]@);
    assert(texts[4] == f@[4]@);
    match read_hash(&f[0]) { Err(e) => Err(e), Ok(v0) => match read_hash(&f[1]) { Err(e) => Err(e), Ok(v1) => match read_number(&f[2]) { Err(e) => Err(e), Ok(v2) => match read_number(&f[3]) { Err(e) => Err(e), Ok(v3) => match read_hash(&f[4]) { Err(e) => Err(e), Ok(v4) => Ok(PsoEntryDef { name: v0, ty: v1 as u8, offset: v2 as u16, subtype: v3 as u8, ref_key: v4 }) } } } } }
}

/// The members that words `from` to `k` write.
pub open spec fn pso_member_words(words: Seq<Seq<char>>, from: int, k: int, line: int) -> Result<
    Seq<PsoEntryDef>,
    SchemaErrorView,
>
    decreases k - from,
{
    if k <= from {
        Ok(Seq::empty())
    } else {
        match pso_member_words(words, from, k - 1, line) {
            Err(e) => Err(e),
            Ok(before) => match pso_member_word(words[k - 1], line) {
                Err(e) => Err(e),
                Ok(v) => Ok(before.push(v)),
            },
        }
    }
}

proof fn lemma_pso_member_err(words: Seq<Seq<char>>, from: int, j: int, k: int, line: int)
    requires
        from <= j <= k,
        pso_member_words(words, from, j, line) is Err,
    ensures
        pso_member_words(words, from, k, line) == pso_member_words(words, from, j, line),
    decreases k - j,
{
    if j < k {
        lemma_pso_member_err(words, from, j, k - 1, line);
    }
}

fn read_pso_members(words: &Vec<Vec<char>>, from: usize, line: usize) -> (r: Result<
    Vec<PsoEntryDef>,
    SchemaError,
>)
    ensures
        pso_member_words(
            crate::chars::runs(words@),
            from as int,
            words@.len() as int,
            line as int,
        ) == (match r {
            Ok(v) => Ok(v@),
            Err(e) => Err(e@),
        }),
{
    let ghost all = crate::chars::runs(words@);
    let mut out: Vec<PsoEntryDef> = Vec::new();
    let mut k: usize = from;
    while k < words.len()
        invariant
            from <= k,
            k <= words@.len() || k == from,
            all == crate::chars::runs(words@),
            pso_member_words(all, from as int, k as int, line as int) == Ok::<
                Seq<PsoEntryDef>,
                SchemaErrorView,
            >(out@),
        decreases words@.len() - k,
    {
        assert(all[k as int] == words@[k as int]@);
        match read_pso_member(&words[k], line) {
            Ok(v) => {
                out.push(v);
            },
            Err(e) => {
                proof {
                    lemma_pso_member_err(
                        all,
                        from as int,
                        k + 1,
                        words@.len() as int,
                        line as int,
                    );
                }
                return Err(e);
            },
        }
        k += 1;
    }
    Ok(out)
}

/// A schema with a Meta structure record.
pub open spec fn with_meta_struct(s: SchemaView, words: Seq<Seq<char>>, line: int) -> Result<
    SchemaView,
    SchemaErrorView,
> {
    match hash_field(words, 1, line) { Err(e) => Err(e), Ok(name) => { match hash_field(words, 2, line) { Err(e) => Err(e), Ok(key) => { match number_field(words, 3, line) { Err(e) => Err(e), Ok(unk8) => { let unk8 = unk8 as u32; match number_field(words, 4, line) { Err(e) => Err(e), Ok(size) => { let size = size as u32; match meta_member_words(words, 5, words.len() as int, line) {
                Err(e) => Err(e),
                Ok(entries) => Ok(SchemaView { meta_structs: s.meta_structs.insert(name, MetaStructDefView { name, key, unk8, size, entries }), ..s }),
            } } } } } } } } }
}

fn add_meta_struct(s: &mut Schema, words: &Vec<Vec<char>>, line: usize) -> (r: Result<(), SchemaError>)
    ensures
        with_meta_struct(old(s)@, crate::chars::runs(words@), line as int) == (match r {
            Ok(_) => Ok(final(s)@),
            Err(e) => Err(e@),
        }),
{
    let ghost before = s@;
    let name = match read_hash_field(words, 1, line) {
        Ok(v) => v,
        Err(e) => {
            return Err(e);
        },
    };
    let key = match read_hash_field(words, 2, line) {
        Ok(v) => v,
        Err(e) => {
            return Err(e);
        },
    };
    let unk8 = match read_number_field(words, 3, line) {
        Ok(v) => v as u32,
        Err(e) => {
            return Err(e);
        },
    };
    let size = match read_number_field(words, 4, line) {
        Ok(v) => v as u32,
        Err(e) => {
            return Err(e);
        },
    };
    let entries = match read_meta_members(words, 5, line) {
        Ok(v) => v,
        Err(e) => {
            return Err(e);
        },
    };
    let def = MetaStructDef { name, key, unk8, size, entries };
    let ghost made = def@;
    s.meta_structs.insert(name, def);
    assert(s@.meta_structs =~= before.meta_structs.insert(name, made));
    Ok(())
}

/// A schema with a Meta enum record.
pub open spec fn with_meta_enum(s: SchemaView, words: Seq<Seq<char>>, line: int) -> Result<
    SchemaView,
    SchemaErrorView,
> {
    match hash_field(words, 1, line) { Err(e) => Err(e), Ok(name) => { match hash_field(words, 2, line) { Err(e) => Err(e), Ok(key) => { match enumerator_words(words, 3, words.len() as int, line) {
                Err(e) => Err(e),
                Ok(entries) => Ok(SchemaView { meta_enums: s.meta_enums.insert(name, MetaEnumDefView { name, key, entries }), ..s }),
            } } } } }
}

fn add_meta_enum(s: &mut Schema, words: &Vec<Vec<char>>, line: usize) -> (r: Result<(), SchemaError>)
    ensures
        with_meta_enum(old(s)@, crate::chars::runs(words@), line as int) == (match r {
            Ok(_) => Ok(final(s)@),
            Err(e) => Err(e@),
        }),
{
    let ghost before = s@;
    let name = match read_hash_field(words, 1, line) {
        Ok(v) => v,
        Err(e) => {
            return Err(e);
        },
    };
    let key = match read_hash_field(words, 2, line) {
        Ok(v) => v,
        Err(e) => {
            return Err(e);
        },
    };
    let entries = match read_enumerators(words, 3, line) {
        Ok(v) => v,
        Err(e) => {
            return Err(e);
        },
    };
    let def = MetaEnumDef { name, key, entries };
    let ghost made = def@;
    s.meta_enums.insert(name, def);
    assert(s@.meta_enums =~= before.meta_enums.insert(name, made));
    Ok(())
}

/// A schema with a PSO structure record.
pub open spec fn with_pso_struct(s: SchemaView, words: Seq<Seq<char>>, line: int) -> Result<
    SchemaView,
    SchemaErrorView,
> {
    match hash_field(words, 1, line) { Err(e) => Err(e), Ok(name) => { match number_field(words, 2, line) { Err(e) => Err(e), Ok(ty) => { let ty = ty as u8; match number_field(words, 3, line) { Err(e) => Err(e), Ok(unk) => { let unk = unk as u8; match number_field(words, 4, line) { Err(e) => Err(e), Ok(size) => { let size = size as u32; match pso_member_words(words, 5, words.len() as int, line) {
                Err(e) => Err(e),
                Ok(entries) => Ok(SchemaView { pso_structs: s.pso_structs.insert(name, PsoStructDefView { name, ty, unk, size, entries }), ..s }),
            } } } } } } } } }
}

fn add_pso_struct(s: &mut Schema, words: &Vec<Vec<char>>, line: usize) -> (r: Result<(), SchemaError>)
    ensures
        with_pso_struct(old(s)@, crate::chars::runs(words@), line as int) == (match r {
            Ok(_) => Ok(final(s)@),
            Err(e) => Err(e@),
        }),
{
    let ghost before = s@;
    let name = match read_hash_field(words, 1, line) {
        Ok(v) => v,
        Err(e) => {
            return Err(e);
        },
    };
    let ty = match read_number_field(words, 2, line) {
        Ok(v) => v as u8,
        Err(e) => {
            return Err(e);
        },
    };
    let unk = match read_number_field(words, 3, line) {
        Ok(v) => v as u8,
        Err(e) => {
            return Err(e);
        },
    };
    let size = match read_number_field(words, 4, line) {
        Ok(v) => v as u32,
        Err(e) => {
            return Err(e);
        },
    };
    let entries = match read_pso_members(words, 5, line) {
        Ok(v) => v,
        Err(e) => {
            return Err(e);
        },
    };
    let def = PsoStructDef { name, ty, unk, size, entries };
    let ghost made = def@;
    s.pso_structs.insert(name, def);
    assert(s@.pso_structs =~= before.pso_structs.insert(name, made));
    Ok(())
}

/// A schema with a PSO enum record.
pub open spec fn with_pso_enum(s: SchemaView, words: Seq<Seq<char>>, line: int) -> Result<
    SchemaView,
    SchemaErrorView,
> {
    match hash_field(words, 1, line) { Err(e) => Err(e), Ok(name) => { match number_field(words, 2, line) { Err(e) => Err(e), Ok(ty) => { let ty = ty as u8; match enumerator_words(words, 3, words.len() as int, line) {
                Err(e) => Err(e),
                Ok(entries) => Ok(SchemaView { pso_enums: s.pso_enums.insert(name, PsoEnumDefView { name, ty, entries }), ..s }),
            } } } } }
}

fn add_pso_enum(s: &mut Schema, words: &Vec<Vec<char>>, line: usize) -> (r: Result<(), SchemaError>)
    ensures
        with_pso_enum(old(s)@, crate::chars::runs(words@), line as int) == (match r {
            Ok(_) => Ok(final(s)@),
            Err(e) => Err(e@),
        }),
{
    let ghost before = s@;
    let name = match read_hash_field(words, 1, line) {
        Ok(v) => v,
        Err(e) => {
            return Err(e);
        },
    };
    let ty = match read_number_field(words, 2, line) {
        Ok(v) => v as u8,
        Err(e) => {
            return Err(e);
        },
    };
    let entries = match read_enumerators(words, 3, line) {
        Ok(v) => v,
        Err(e) => {
            return Err(e);
        },
    };
    let def = PsoEnumDef { name, ty, entries };
    let ghost made = def@;
    s.pso_enums.insert(name, def);
    assert(s@.pso_enums =~= before.pso_enums.insert(name, made));
    Ok(())
}

/// A schema with one line of a table read into it: a record of one of four
/// kinds, a `#` comment, or nothing.
pub open spec fn with_line(s: SchemaView, text: Seq<char>, line: int) -> Result<
    SchemaView,
    SchemaErrorView,
> {
    let t = crate::chars::trimmed(text);
    let words = crate::chars::words(t, false);
    if t.len() == 0 || t[0] == '#' || words.len() == 0 {
        Ok(s)
    } else if words[0] == "M"@ {
        with_meta_struct(s, words, line)
    } else if words[0] == "ME"@ {
        with_meta_enum(s, words, line)
    } else if words[0] == "P"@ {
        with_pso_struct(s, words, line)
    } else if words[0] == "PE"@ {
        with_pso_enum(s, words, line)
    } else {
        Err(SchemaErrorView::Kind { line, text: words[0] })
    }
}

/// A schema with the lines of a table from `from` on read into it. Lines are
/// counted from one.
pub open spec fn with_lines(s: SchemaView, lines: Seq<Seq<char>>, from: int) -> Result<
    SchemaView,
    SchemaErrorView,
>
    decreases lines.len() - from,
{
    if from >= lines.len() {
        Ok(s)
    } else {
        match with_line(s, lines[from], from + 1) {
            Ok(t) => with_lines(t, lines, from + 1),
            Err(e) => Err(e),
        }
    }
}

/// What a table parses to.
pub open spec fn parsed_table(text: Seq<char>) -> Result<SchemaView, SchemaErrorView> {
    with_lines(no_schema(), crate::chars::pieces(text, '\n'), 0)
}

/// The model behind a result.
pub open spec fn schema_view(r: Result<Schema, SchemaError>) -> Result<SchemaView, SchemaErrorView> {
    match r {
        Ok(s) => Ok(s@),
        Err(e) => Err(e@),
    }
}

fn is_word(t: &Vec<char>, word: &str) -> (r: bool)
    ensures
        r == (t@ == word@),
{
    let w = chars_of(word);
    same_chars(t.as_slice(), w.as_slice())
}

fn add_line(s: &mut Schema, text: &Vec<char>, line: usize) -> (r: Result<(), SchemaError>)
    ensures
        with_line(old(s)@, text@, line as int) == (match r {
            Ok(_) => Ok(final(s)@),
            Err(e) => Err(e@),
        }),
{
    let t = trim(text.as_slice());
    if t.len() == 0 || t[0] == '#' {
        return Ok(());
    }
    let words = split_words(t, false);
    if words.len() == 0 {
        return Ok(());
    }
    assert(crate::chars::runs(words@)[0] == words@[0]@);
    if is_word(&words[0], "M") {
        add_meta_struct(s, &words, line)
    } else if is_word(&words[0], "ME") {
        add_meta_enum(s, &words, line)
    } else if is_word(&words[0], "P") {
        add_pso_struct(s, &words, line)
    } else if is_word(&words[0], "PE") {
        add_pso_enum(s, &words, line)
    } else {
        Err(SchemaError::Kind { line, text: string_of(words[0].as_slice()) })
    }
}

/// Moves every definition of `from` into `into`, over any of the same name.
fn absorb<V>(into: &mut HashMap<u32, V>, from: HashMap<u32, V>)
    ensures
        final(into)@ == old(into)@.union_prefer_right(from@),
{
    let ghost base = into@;
    let ghost all = from@;
    let mut keys: Vec<u32> = Vec::new();
    for k in iter: from.keys()
        invariant
            keys@ == iter.seq().unref().take(iter.index() as int),
            iter.seq().unref().to_set() == all.dom(),
            iter.seq().no_duplicates(),
            iter.index() == iter.seq().len() ==> keys@ == iter.seq().unref(),
            all == from@,
    {
        let ghost i = iter.index() as int;
        keys.push(*k);
        assert(keys@ =~= iter.seq().unref().take(i + 1));
        assert(i + 1 == iter.seq().len() ==> keys@ =~= iter.seq().unref());
    }
    assert(keys@.to_set() == all.dom());
    assert(keys@.no_duplicates());
    let mut rest = from;
    let mut i: usize = 0;
    let ghost mut done: Set<u32> = Set::empty();
    assert(into@ =~= base.union_prefer_right(all.restrict(done)));
    while i < keys.len()
        invariant
            i <= keys@.len(),
            keys@.to_set() == all.dom(),
            keys@.no_duplicates(),
            forall|j: int| 0 <= j < i ==> done.contains(#[trigger] keys@[j]),
            forall|j: int| i <= j < keys@.len() ==> !done.contains(#[trigger] keys@[j]),
            rest@ == all.remove_keys(done),
            into@ == base.union_prefer_right(all.restrict(done)),
        decreases keys@.len() - i,
    {
        let key = keys[i];
        assert(keys@.to_set().contains(key)) by {
            assert(keys@[i as int] == key);
        }
        assert(rest@.contains_key(key));
        match rest.remove(&key) {
            Some(v) => {
                into.insert(key, v);
            },
            None => {},
        }
        proof {
            let was = done;
            done = done.insert(key);
            assert(rest@ =~= all.remove_keys(done));
            assert(into@ =~= base.union_prefer_right(all.restrict(done)));
        }
        i += 1;
    }
    assert forall|k: u32| all.contains_key(k) implies done.contains(k) by {
        assert(keys@.to_set().contains(k));
        let j = choose|j: int| 0 <= j < keys@.len() && keys@[j] == k;
        assert(done.contains(keys@[j]));
    }
    assert(into@ =~= base.union_prefer_right(all));
}

/// The definitions of both, those of `b` where both define a name.
pub open spec fn merged(a: SchemaView, b: SchemaView) -> SchemaView {
    SchemaView {
        meta_structs: a.meta_structs.union_prefer_right(b.meta_structs),
        meta_enums: a.meta_enums.union_prefer_right(b.meta_enums),
        pso_structs: a.pso_structs.union_prefer_right(b.pso_structs),
        pso_enums: a.pso_enums.union_prefer_right(b.pso_enums),
    }
}

/// Merging keeps every definition that the newcomer does not replace, and
/// takes every one that it brings.
pub proof fn law_merge_prefers_the_newcomer(a: SchemaView, b: SchemaView, name: u32)
    ensures
        b.meta_structs.contains_key(name) ==> merged(a, b).meta_structs.contains_key(name)
            && merged(a, b).meta_structs[name] == b.meta_structs[name],
        !b.meta_structs.contains_key(name) ==> merged(a, b).meta_structs.contains_key(name)
            == a.meta_structs.contains_key(name),
        !b.meta_structs.contains_key(name) && a.meta_structs.contains_key(name) ==> merged(
            a,
            b,
        ).meta_structs[name] == a.meta_structs[name],
        merged(a, no_schema()) == a,
{
    assert(merged(a, no_schema()) =~= a);
}

impl Schema {
    /// The two tables of CodeWalker's definitions, the second over the first.
    pub fn builtin(meta_table: &str, pso_table: &str) -> (r: Result<Schema, SchemaError>)
        ensures
            schema_view(r) == (match parsed_table(meta_table@) {
                Err(e) => Err(e),
                Ok(a) => match parsed_table(pso_table@) {
                    Err(e) => Err(e),
                    Ok(b) => Ok(merged(a, b)),
                },
            }),
    {
        match Schema::parse_table(meta_table) {
            Err(e) => Err(e),
            Ok(mut s) => match Schema::parse_table(pso_table) {
                Err(e) => Err(e),
                Ok(p) => {
                    s.merge(p);
                    Ok(s)
                },
            },
        }
    }

    /// Parses a text table of definitions: one record per line, of words
    /// parted by white space. `M name key unk8 size` and `P name type unk
    /// size` define structures, each further word a member; `ME name key` and
    /// `PE name type` define enums, each further word a `name,value` pair.
    pub fn parse_table(text: &str) -> (r: Result<Schema, SchemaError>)
        ensures
            schema_view(r) == parsed_table(text@),
    {
        let cs = chars_of(text);
        let lines = split_at_char(cs.as_slice(), '\n');
        let ghost texts = crate::chars::runs(lines@);
        let mut schema = Schema::default();
        let mut i: usize = 0;
        while i < lines.len()
            invariant
                i <= lines@.len(),
                texts == crate::chars::runs(lines@),
                texts == crate::chars::pieces(text@, '\n'),
                parsed_table(text@) == with_lines(schema@, texts, i as int),
            decreases lines@.len() - i,
        {
            assert(texts[i as int] == lines@[i as int]@);
            assert(lines.len() <= usize::MAX);
            match add_line(&mut schema, &lines[i], i + 1) {
                Ok(()) => {},
                Err(e) => {
                    return Err(e);
                },
            }
            i += 1;
        }
        Ok(schema)
    }

    /// Adds `other`'s definitions, replacing any of the same name.
    pub fn merge(&mut self, other: Schema)
        ensures
            final(self)@ == merged(old(self)@, other@),
    {
        let ghost a = self@;
        let ghost b = other@;
        absorb(&mut self.meta_structs, other.meta_structs);
        absorb(&mut self.meta_enums, other.meta_enums);
        absorb(&mut self.pso_structs, other.pso_structs);
        absorb(&mut self.pso_enums, other.pso_enums);
        assert(self@.meta_structs =~= merged(a, b).meta_structs);
        assert(self@.meta_enums =~= merged(a, b).meta_enums);
        assert(self@.pso_structs =~= merged(a, b).pso_structs);
        assert(self@.pso_enums =~= merged(a, b).pso_enums);
    }

    /// Whether no structure is defined.
    pub fn is_empty(&self) -> (r: bool)
        ensures
            r == (self@.meta_structs.dom() == Set::<u32>::empty() && self@.pso_structs.dom()
                == Set::<u32>::empty()),
    {
        let a = self.meta_structs.is_empty();
        let b = self.pso_structs.is_empty();
        proof {
            assert(self@.meta_structs.dom() =~= self.meta_structs@.dom());
            assert(self@.pso_structs.dom() =~= self.pso_structs@.dom());
        }
        a && b
    }

    /// The definitions an existing RSC7 Meta or PSO file carries, every
    /// field included (the readers' tables drop the ones only a writer needs).
    pub fn from_file(data: &[u8]) -> (r: Result<Schema, SchemaError>)
        ensures
            exists|sections: Result<(Seq<u8>, Seq<u8>), ResourceError>|
                (data@.len() >= 4 && crate::bytes::le32(data@, 0) == RSC7_MAGIC ==> crate::resource::unpacks_to(
                    data@,
                    sections,
                )) && schema_view(r) == #[trigger] file_schema(data@, sections),
    {
        if data.len() >= 4 && u32_le(data, 0) == RSC7_MAGIC {
            let prepared = prepare_rsc7(data);
            let ghost sections = crate::resource::sections_view(prepared);
            assert(crate::resource::unpacks_to(data@, sections));
            let r = match prepared {
                Err(e) => Err(SchemaError::Meta(MetaError::Resource(e))),
                Ok((system, graphics)) => {
                    let reader = ResReader {
                        system: system.as_slice(),
                        graphics: graphics.as_slice(),
                    };
                    match Self::from_meta_reader(&reader) {
                        Ok(s) => Ok(s),
                        Err(e) => Err(SchemaError::Meta(e)),
                    }
                },
            };
            assert(schema_view(r) == file_schema(data@, sections));
            return r;
        }
        let ghost any: Result<(Seq<u8>, Seq<u8>), ResourceError> = Err(ResourceError::TooShort);
        let r = if data.len() >= 4 && u32_be(data, 0) == PSO_MAGIC {
            Self::from_pso(data)
        } else {
            Err(SchemaError::NoSchema)
        };
        assert(schema_view(r) == file_schema(data@, any));
        r
    }

    fn from_meta_reader(reader: &ResReader<'_>) -> (r: Result<Schema, MetaError>)
        ensures
            meta_schema_of(reader.system@, reader.graphics@) == (match r {
                Ok(s) => Ok(s@),
                Err(e) => Err(e),
            }),
    {
        let header = match reader.resolve(SYSTEM_BASE, 0x70) {
            Some(h) => h,
            None => {
                return Err(MetaError::HeaderBounds);
            },
        };
        if u32_le(header, 0x10) != 0x5052_4430 {
            return Err(MetaError::NotMeta);
        }
        let struct_count = u16_le(header, 0x48) as usize;
        let enum_count = u16_le(header, 0x4A) as usize;
        let table = match read_table(reader, u64_le(header, 0x20), struct_count, 32) {
            Some(t) => t,
            None => {
                return Err(MetaError::StructTable);
            },
        };
        let meta_structs = match read_meta_structs(reader, table, struct_count) {
            Ok(m) => m,
            Err(e) => {
                return Err(e);
            },
        };
        let table = match read_table(reader, u64_le(header, 0x28), enum_count, 24) {
            Some(t) => t,
            None => {
                return Err(MetaError::EnumTable);
            },
        };
        let meta_enums = match read_meta_enums(reader, table, enum_count) {
            Ok(m) => m,
            Err(e) => {
                return Err(e);
            },
        };
        let s = Schema {
            meta_structs,
            meta_enums,
            pso_structs: HashMap::new(),
            pso_enums: HashMap::new(),
        };
        assert(s@.pso_structs =~= Map::empty());
        assert(s@.pso_enums =~= Map::empty());
        assert(s@.meta_structs == meta_structs_view(s.meta_structs@));
        assert(s@.meta_enums == meta_enums_view(s.meta_enums@));
        Ok(s)
    }

    fn from_pso(data: &[u8]) -> (r: Result<Schema, SchemaError>)
        ensures
            schema_view(r) == with_pso_sections(no_schema(), data@, 0),
    {
        let mut schema = Schema::default();
        let mut pos: usize = 0;
        while data.len() - pos >= 8
            invariant
                pos <= data@.len(),
                with_pso_sections(no_schema(), data@, 0) == with_pso_sections(
                    schema@,
                    data@,
                    pos as int,
                ),
            decreases data@.len() - pos,
        {
            let ident = u32_be(data, pos);
            let length = u32_be(data, pos + 4) as usize;
            if length < 8 || length > data.len() - pos {
                return Err(SchemaError::SectionBounds { ident, pos });
            }
            if ident == SECTION_PSCH {
                if length < 12 {
                    return Err(SchemaError::Truncated);
                }
                let section = slice_subrange(data, pos, pos + length);
                let count = u32_be(section, 8);
                let ghost before = schema@;
                let mut i: u32 = 0;
                while i < count
                    invariant
                        i <= count,
                        pos + length <= data@.len(),
                        12 <= length,
                        section@ == data@.subrange(pos as int, pos + length),
                        count == crate::bytes::be32(section@, 8),
                        ident == SECTION_PSCH,
                        ident == crate::bytes::be32(data@, pos as int),
                        length == crate::bytes::be32(data@, pos + 4),
                        with_pso_sections(no_schema(), data@, 0) == with_pso_sections(
                            before,
                            data@,
                            pos as int,
                        ),
                        with_pso_definitions(before, section@, 0, count as int)
                            == with_pso_definitions(schema@, section@, i as int, count as int),
                    decreases count - i,
                {
                    match add_pso_definition(&mut schema, section, i) {
                        Ok(()) => {},
                        Err(e) => {
                            return Err(e);
                        },
                    }
                    i += 1;
                }
            }
            pos += length;
        }
        Ok(schema)
    }

}

// ─── definitions that files carry ────────────────────────────────────────────

/// The member record at `at`.
pub open spec fn meta_def_at(s: Seq<u8>, at: int) -> MetaEntryDef {
    MetaEntryDef {
        name: crate::bytes::le32(s, at),
        offset: crate::bytes::le32(s, at + 4),
        ty: s[at + 8],
        unk9: s[at + 9],
        ref_index: crate::bytes::le16(s, at + 10) as i16,
        ref_key: crate::bytes::le32(s, at + 12),
    }
}

/// The `n` member records that `s` starts with.
pub open spec fn meta_defs_at(s: Seq<u8>, n: nat) -> Seq<MetaEntryDef> {
    Seq::new(n, |i: int| meta_def_at(s, 16 * i))
}

/// The structure definitions of the first `k` records of a table, a later
/// one over an earlier one of the same name.
pub open spec fn meta_structs_upto(system: Seq<u8>, graphics: Seq<u8>, table: Seq<u8>, k: nat) -> Result<
    Map<u32, MetaStructDefView>,
    MetaError,
>
    decreases k,
{
    if k == 0 {
        Ok(Map::empty())
    } else {
        match meta_structs_upto(system, graphics, table, (k - 1) as nat) {
            Err(e) => Err(e),
            Ok(m) => {
                let at = 32 * (k - 1);
                let name = crate::bytes::le32(table, at);
                let count = crate::bytes::le16(table, at + 0x1E) as int;
                match crate::meta_schema::table_at(system, graphics, crate::bytes::le64(table, at + 0x10), count, 16) {
                    None => Err(MetaError::MemberTable),
                    Some(bytes) => Ok(
                        m.insert(
                            name,
                            MetaStructDefView {
                                name,
                                key: crate::bytes::le32(table, at + 4),
                                unk8: crate::bytes::le32(table, at + 8),
                                size: crate::bytes::le32(table, at + 0x18),
                                entries: meta_defs_at(bytes, count as nat),
                            },
                        ),
                    ),
                }
            },
        }
    }
}

/// The enum definitions of the first `k` records of a table.
pub open spec fn meta_enums_upto(system: Seq<u8>, graphics: Seq<u8>, table: Seq<u8>, k: nat) -> Result<
    Map<u32, MetaEnumDefView>,
    MetaError,
>
    decreases k,
{
    if k == 0 {
        Ok(Map::empty())
    } else {
        match meta_enums_upto(system, graphics, table, (k - 1) as nat) {
            Err(e) => Err(e),
            Ok(m) => {
                let at = 24 * (k - 1);
                let name = crate::bytes::le32(table, at);
                let count = crate::bytes::le32(table, at + 0x10) as int;
                match crate::meta_schema::table_at(system, graphics, crate::bytes::le64(table, at + 8), count, 8) {
                    None => Err(MetaError::EnumMemberTable),
                    Some(bytes) => Ok(
                        m.insert(
                            name,
                            MetaEnumDefView {
                                name,
                                key: crate::bytes::le32(table, at + 4),
                                entries: crate::meta_schema::enumerators_at(bytes, count as nat),
                            },
                        ),
                    ),
                }
            },
        }
    }
}

/// The definitions that the sections of a Meta file carry.
pub open spec fn meta_schema_of(system: Seq<u8>, graphics: Seq<u8>) -> Result<SchemaView, MetaError> {
    match crate::resource::resolved(system, graphics, SYSTEM_BASE, 0x70) {
        None => Err(MetaError::HeaderBounds),
        Some(header) => {
            let structs = crate::bytes::le16(header, 0x48) as int;
            let enums = crate::bytes::le16(header, 0x4A) as int;
            if crate::bytes::le32(header, 0x10) != 0x5052_4430 {
                Err(MetaError::NotMeta)
            } else {
                match crate::meta_schema::table_at(system, graphics, crate::bytes::le64(header, 0x20), structs, 32) {
                    None => Err(MetaError::StructTable),
                    Some(st) => match meta_structs_upto(system, graphics, st, structs as nat) {
                        Err(e) => Err(e),
                        Ok(meta_structs) => match crate::meta_schema::table_at(
                            system,
                            graphics,
                            crate::bytes::le64(header, 0x28),
                            enums,
                            24,
                        ) {
                            None => Err(MetaError::EnumTable),
                            Some(et) => match meta_enums_upto(system, graphics, et, enums as nat) {
                                Err(e) => Err(e),
                                Ok(meta_enums) => Ok(
                                    SchemaView { meta_structs, meta_enums, ..no_schema() },
                                ),
                            },
                        },
                    },
                }
            }
        },
    }
}

proof fn lemma_meta_structs_err(system: Seq<u8>, graphics: Seq<u8>, table: Seq<u8>, j: nat, k: nat)
    requires
        j <= k,
        meta_structs_upto(system, graphics, table, j) is Err,
    ensures
        meta_structs_upto(system, graphics, table, k) == meta_structs_upto(
            system,
            graphics,
            table,
            j,
        ),
    decreases k,
{
    if j < k {
        lemma_meta_structs_err(system, graphics, table, j, (k - 1) as nat);
    }
}

proof fn lemma_meta_enums_err(system: Seq<u8>, graphics: Seq<u8>, table: Seq<u8>, j: nat, k: nat)
    requires
        j <= k,
        meta_enums_upto(system, graphics, table, j) is Err,
    ensures
        meta_enums_upto(system, graphics, table, k) == meta_enums_upto(system, graphics, table, j),
    decreases k,
{
    if j < k {
        lemma_meta_enums_err(system, graphics, table, j, (k - 1) as nat);
    }
}

/// The models of structure definitions.
pub open spec fn meta_structs_view(m: Map<u32, MetaStructDef>) -> Map<u32, MetaStructDefView> {
    m.map_values(|d: MetaStructDef| d@)
}

/// The models of enum definitions.
pub open spec fn meta_enums_view(m: Map<u32, MetaEnumDef>) -> Map<u32, MetaEnumDefView> {
    m.map_values(|d: MetaEnumDef| d@)
}

fn read_meta_defs(bytes: &[u8], count: usize) -> (r: Vec<MetaEntryDef>)
    requires
        bytes@.len() == 16 * count,
    ensures
        r@ == meta_defs_at(bytes@, count as nat),
{
    let mut out: Vec<MetaEntryDef> = Vec::new();
    let mut n: usize = 0;
    while n < count
        invariant
            n <= count,
            bytes@.len() == 16 * count,
            out@ == meta_defs_at(bytes@, n as nat),
        decreases count - n,
    {
        assert(16 * count <= bytes.len());
        let e = n * 16;
        out.push(
            MetaEntryDef {
                name: u32_le(bytes, e),
                offset: u32_le(bytes, e + 4),
                ty: bytes[e + 8],
                unk9: bytes[e + 9],
                ref_index: u16_le(bytes, e + 10) as i16,
                ref_key: u32_le(bytes, e + 12),
            },
        );
        n += 1;
        assert(out@ =~= meta_defs_at(bytes@, n as nat));
    }
    out
}

fn read_meta_enumerators(bytes: &[u8], count: usize) -> (r: Vec<(u32, i32)>)
    requires
        bytes@.len() == 8 * count,
    ensures
        r@ == crate::meta_schema::enumerators_at(bytes@, count as nat),
{
    let mut out: Vec<(u32, i32)> = Vec::new();
    let mut n: usize = 0;
    while n < count
        invariant
            n <= count,
            bytes@.len() == 8 * count,
            out@ == crate::meta_schema::enumerators_at(bytes@, n as nat),
        decreases count - n,
    {
        assert(8 * count <= bytes.len());
        out.push((u32_le(bytes, n * 8), u32_le(bytes, n * 8 + 4) as i32));
        n += 1;
        assert(out@ =~= crate::meta_schema::enumerators_at(bytes@, n as nat));
    }
    out
}

fn read_meta_structs(reader: &ResReader<'_>, table: &[u8], count: usize) -> (r: Result<
    HashMap<u32, MetaStructDef>,
    MetaError,
>)
    requires
        table@.len() == 32 * count,
    ensures
        meta_structs_upto(reader.system@, reader.graphics@, table@, count as nat) == (match r {
            Ok(m) => Ok(meta_structs_view(m@)),
            Err(e) => Err(e),
        }),
{
    let mut structs: HashMap<u32, MetaStructDef> = HashMap::new();
    let mut i: usize = 0;
    assert(meta_structs_view(structs@) =~= Map::empty());
    while i < count
        invariant
            i <= count,
            table@.len() == 32 * count,
            meta_structs_upto(reader.system@, reader.graphics@, table@, i as nat) == Ok::<
                Map<u32, MetaStructDefView>,
                MetaError,
            >(meta_structs_view(structs@)),
        decreases count - i,
    {
        assert(32 * count <= table.len());
        let at = i * 32;
        let name = u32_le(table, at);
        let n = u16_le(table, at + 0x1E) as usize;
        let bytes = match read_table(reader, u64_le(table, at + 0x10), n, 16) {
            Some(b) => b,
            None => {
                proof {
                    lemma_meta_structs_err(
                        reader.system@,
                        reader.graphics@,
                        table@,
                        (i + 1) as nat,
                        count as nat,
                    );
                }
                return Err(MetaError::MemberTable);
            },
        };
        let def = MetaStructDef {
            name,
            key: u32_le(table, at + 4),
            unk8: u32_le(table, at + 8),
            size: u32_le(table, at + 0x18),
            entries: read_meta_defs(bytes, n),
        };
        let ghost before = structs@;
        let ghost made = def@;
        structs.insert(name, def);
        assert(meta_structs_view(structs@) =~= meta_structs_view(before).insert(name, made));
        i += 1;
    }
    Ok(structs)
}

fn read_meta_enums(reader: &ResReader<'_>, table: &[u8], count: usize) -> (r: Result<
    HashMap<u32, MetaEnumDef>,
    MetaError,
>)
    requires
        table@.len() == 24 * count,
    ensures
        meta_enums_upto(reader.system@, reader.graphics@, table@, count as nat) == (match r {
            Ok(m) => Ok(meta_enums_view(m@)),
            Err(e) => Err(e),
        }),
{
    let mut enums: HashMap<u32, MetaEnumDef> = HashMap::new();
    let mut i: usize = 0;
    assert(meta_enums_view(enums@) =~= Map::empty());
    while i < count
        invariant
            i <= count,
            table@.len() == 24 * count,
            meta_enums_upto(reader.system@, reader.graphics@, table@, i as nat) == Ok::<
                Map<u32, MetaEnumDefView>,
                MetaError,
            >(meta_enums_view(enums@)),
        decreases count - i,
    {
        assert(24 * count <= table.len());
        let at = i * 24;
        let name = u32_le(table, at);
        let n = u32_le(table, at + 0x10) as usize;
        let bytes = match read_table(reader, u64_le(table, at + 8), n, 8) {
            Some(b) => b,
            None => {
                proof {
                    lemma_meta_enums_err(
                        reader.system@,
                        reader.graphics@,
                        table@,
                        (i + 1) as nat,
                        count as nat,
                    );
                }
                return Err(MetaError::EnumMemberTable);
            },
        };
        let def = MetaEnumDef {
            name,
            key: u32_le(table, at + 4),
            entries: read_meta_enumerators(bytes, n),
        };
        let ghost before = enums@;
        let ghost made = def@;
        enums.insert(name, def);
        assert(meta_enums_view(enums@) =~= meta_enums_view(before).insert(name, made));
        i += 1;
    }
    Ok(enums)
}

/// The member record at `at`.
pub open spec fn pso_def_at(s: Seq<u8>, at: int) -> PsoEntryDef {
    PsoEntryDef {
        name: crate::bytes::be32(s, at),
        ty: s[at + 4],
        subtype: s[at + 5],
        offset: crate::bytes::be16(s, at + 6),
        ref_key: crate::bytes::be32(s, at + 8),
    }
}

/// The `n` member records from `at` on.
pub open spec fn pso_defs_at(s: Seq<u8>, at: int, n: nat) -> Seq<PsoEntryDef> {
    Seq::new(n, |i: int| pso_def_at(s, at + 12 * i))
}

/// A schema with entry `i` of a PSO schema section read into it. An entry
/// that runs past the section is an error.
pub open spec fn with_pso_definition(s: SchemaView, b: Seq<u8>, i: int) -> Result<
    SchemaView,
    SchemaErrorView,
> {
    if 20 + 8 * i > b.len() {
        Err(SchemaErrorView::Truncated)
    } else {
        let name = crate::bytes::be32(b, 12 + 8 * i);
        let offset = crate::bytes::be32(b, 16 + 8 * i) as int;
        if offset + 4 > b.len() {
            Err(SchemaErrorView::Truncated)
        } else {
            let word = crate::bytes::be32(b, offset);
            if word / 0x100_0000 == 0 {
                let n = (word % 0x1_0000) as nat;
                if offset + 8 > b.len() || (n > 0 && offset + 12 + 12 * n > b.len()) {
                    Err(SchemaErrorView::Truncated)
                } else {
                    Ok(
                        SchemaView {
                            pso_structs: s.pso_structs.insert(
                                name,
                                PsoStructDefView {
                                    name,
                                    ty: 0,
                                    unk: (word / 0x1_0000 % 0x100) as u8,
                                    size: crate::bytes::be32(b, offset + 4),
                                    entries: pso_defs_at(b, offset + 12, n),
                                },
                            ),
                            ..s
                        },
                    )
                }
            } else if word / 0x100_0000 == 1 {
                let n = (word % 0x100_0000) as nat;
                if offset + 4 + 8 * n > b.len() {
                    Err(SchemaErrorView::Truncated)
                } else {
                    Ok(
                        SchemaView {
                            pso_enums: s.pso_enums.insert(
                                name,
                                PsoEnumDefView {
                                    name,
                                    ty: 1,
                                    entries: crate::pso::enumerators_at(b, offset + 4, n),
                                },
                            ),
                            ..s
                        },
                    )
                }
            } else {
                Err(SchemaErrorView::EntryType(word / 0x100_0000))
            }
        }
    }
}

/// A schema with the entries from `i` to `count` of a PSO schema section.
pub open spec fn with_pso_definitions(s: SchemaView, b: Seq<u8>, i: int, count: int) -> Result<
    SchemaView,
    SchemaErrorView,
>
    decreases count - i,
{
    if i >= count {
        Ok(s)
    } else {
        match with_pso_definition(s, b, i) {
            Ok(t) => with_pso_definitions(t, b, i + 1, count),
            Err(e) => Err(e),
        }
    }
}

/// A schema with the schema sections of a PSO file from `pos` on.
pub open spec fn with_pso_sections(s: SchemaView, data: Seq<u8>, pos: int) -> Result<
    SchemaView,
    SchemaErrorView,
>
    decreases data.len() - pos,
{
    if pos + 8 > data.len() {
        Ok(s)
    } else {
        let ident = crate::bytes::be32(data, pos);
        let length = crate::bytes::be32(data, pos + 4) as int;
        if length < 8 || pos + length > data.len() {
            Err(SchemaErrorView::SectionBounds { ident, pos })
        } else if ident != SECTION_PSCH {
            with_pso_sections(s, data, pos + length)
        } else if length < 12 {
            Err(SchemaErrorView::Truncated)
        } else {
            let b = data.subrange(pos, pos + length);
            match with_pso_definitions(s, b, 0, crate::bytes::be32(b, 8) as int) {
                Ok(t) => with_pso_sections(t, data, pos + length),
                Err(e) => Err(e),
            }
        }
    }
}

/// The definitions that a file carries, given what it unpacks to where it is
/// a resource file.
pub open spec fn file_schema(
    data: Seq<u8>,
    sections: Result<(Seq<u8>, Seq<u8>), ResourceError>,
) -> Result<SchemaView, SchemaErrorView> {
    if data.len() >= 4 && crate::bytes::le32(data, 0) == RSC7_MAGIC {
        match sections {
            Err(e) => Err(SchemaErrorView::Meta(MetaError::Resource(e))),
            Ok((s, g)) => match meta_schema_of(s, g) {
                Ok(v) => Ok(v),
                Err(e) => Err(SchemaErrorView::Meta(e)),
            },
        }
    } else if data.len() >= 4 && crate::bytes::be32(data, 0) == PSO_MAGIC {
        with_pso_sections(no_schema(), data, 0)
    } else {
        Err(SchemaErrorView::NoSchema)
    }
}

fn read_pso_defs(b: &[u8], base: usize, count: usize) -> (r: Vec<PsoEntryDef>)
    requires
        count == 0 || base + 12 * count <= b@.len(),
    ensures
        r@ == pso_defs_at(b@, base as int, count as nat),
{
    let mut out: Vec<PsoEntryDef> = Vec::new();
    let mut n: usize = 0;
    while n < count
        invariant
            n <= count,
            base + 12 * count <= b@.len() || count == 0,
            out@ == pso_defs_at(b@, base as int, n as nat),
        decreases count - n,
    {
        assert(base + 12 * count <= b.len());
        let e = base + n * 12;
        out.push(
            PsoEntryDef {
                name: u32_be(b, e),
                ty: b[e + 4],
                subtype: b[e + 5],
                offset: u16_be(b, e + 6),
                ref_key: u32_be(b, e + 8),
            },
        );
        n += 1;
        assert(out@ =~= pso_defs_at(b@, base as int, n as nat));
    }
    out
}

fn read_pso_enumerators(b: &[u8], base: usize, count: usize) -> (r: Vec<(u32, i32)>)
    requires
        base + 8 * count <= b@.len(),
    ensures
        r@ == crate::pso::enumerators_at(b@, base as int, count as nat),
{
    let mut out: Vec<(u32, i32)> = Vec::new();
    let mut n: usize = 0;
    while n < count
        invariant
            n <= count,
            base + 8 * count <= b@.len(),
            out@ == crate::pso::enumerators_at(b@, base as int, n as nat),
        decreases count - n,
    {
        assert(base + 8 * count <= b.len());
        let e = base + n * 8;
        out.push((u32_be(b, e), u32_be(b, e + 4) as i32));
        n += 1;
        assert(out@ =~= crate::pso::enumerators_at(b@, base as int, n as nat));
    }
    out
}

fn add_pso_definition(s: &mut Schema, b: &[u8], i: u32) -> (r: Result<(), SchemaError>)
    ensures
        with_pso_definition(old(s)@, b@, i as int) == (match r {
            Ok(_) => Ok(final(s)@),
            Err(e) => Err(e@),
        }),
{
    let ghost before = s@;
    let len = b.len() as u64;
    if 20 + 8 * i as u64 > len {
        return Err(SchemaError::Truncated);
    }
    let at: usize = 12 + 8 * i as usize;
    let name = u32_be(b, at);
    let offset = u32_be(b, at + 4);
    if offset as u64 + 4 > len {
        return Err(SchemaError::Truncated);
    }
    let word = u32_be(b, offset as usize);
    let kind = word / 0x100_0000;
    if kind == 0 {
        let n = word % 0x1_0000;
        if offset as u64 + 8 > len || (n > 0 && offset as u64 + 12 + 12 * n as u64 > len) {
            return Err(SchemaError::Truncated);
        }
        let entries = if n > 0 {
            read_pso_defs(b, offset as usize + 12, n as usize)
        } else {
            Vec::new()
        };
        assert(entries@ =~= pso_defs_at(b@, offset + 12, n as nat));
        let def = PsoStructDef {
            name,
            ty: 0,
            unk: (word / 0x1_0000 % 0x100) as u8,
            size: u32_be(b, offset as usize + 4),
            entries,
        };
        let ghost made = def@;
        s.pso_structs.insert(name, def);
        assert(s@.pso_structs =~= before.pso_structs.insert(name, made));
    } else if kind == 1 {
        let n = word % 0x100_0000;
        if offset as u64 + 4 + 8 * n as u64 > len {
            return Err(SchemaError::Truncated);
        }
        let entries = read_pso_enumerators(b, offset as usize + 4, n as usize);
        let def = PsoEnumDef { name, ty: 1, entries };
        let ghost made = def@;
        s.pso_enums.insert(name, def);
        assert(s@.pso_enums =~= before.pso_enums.insert(name, made));
    } else {
        return Err(SchemaError::EntryType(kind));
    }
    Ok(())
}

} // verus!
