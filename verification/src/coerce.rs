//! Reading a [`MetaValue`] as the type a schema member wants. Values that
//! came through XML or JSON are loosely typed (a hash is a `Str`, an enum
//! member is its name, a vector may be a list of numbers), so each writer
//! asks for the shape it needs and gets `None` when the value cannot be
//! read that way.

use vstd::prelude::*;
use vstd::slice::*;
use vstd::string::*;

use crate::bytes::to_vec;
use crate::chars::{
    is_whitespace, parse_signed, parse_unsigned, same_chars, same_ignoring_case, split_words, strip,
    trim,
};
use crate::hash::rage_joaat;
use crate::math::Vec4;
use crate::single::{i64_to_single, single_to_i64};
use crate::text::{chars_of, string_of};
use crate::value::{MetaValue, ValueView};

verus! {

broadcast use vstd::slice::group_slice_axioms;

/// What a piece of text is as a floating-point number.
#[derive(Debug)]
pub struct FloatText {
    pub text: String,
    /// The bits of the single it writes, if it writes one.
    pub single: Option<u32>,
    /// The double it writes, if it writes one, rounded towards zero into an
    /// `i64`.
    pub whole: Option<i64>,
}

/// The floating-point numbers that some texts write. A text that is not
/// listed writes none.
#[derive(Debug)]
pub struct FloatTexts {
    pub entries: Vec<FloatText>,
}

/// The model of a [`FloatText`].
pub struct FloatTextView {
    pub text: Seq<char>,
    pub single: Option<u32>,
    pub whole: Option<i64>,
}

/// The model of [`FloatTexts`].
pub type Floats = Seq<FloatTextView>;

impl View for FloatTexts {
    type V = Floats;

    open spec fn view(&self) -> Floats {
        Seq::new(
            self.entries@.len(),
            |i: int|
                FloatTextView {
                    text: self.entries@[i].text@,
                    single: self.entries@[i].single,
                    whole: self.entries@[i].whole,
                },
        )
    }
}

/// The first entry for `text` from `i` on.
pub open spec fn entry_for(floats: Floats, text: Seq<char>, i: int) -> Option<FloatTextView>
    decreases floats.len() - i,
{
    if i >= floats.len() {
        None
    } else if floats[i].text == text {
        Some(floats[i])
    } else {
        entry_for(floats, text, i + 1)
    }
}

/// The bits of the single that `text` writes.
pub open spec fn single_of(floats: Floats, text: Seq<char>) -> Option<u32> {
    match entry_for(floats, text, 0) {
        Some(e) => e.single,
        None => None,
    }
}

/// The double that `text` writes, as an integer.
pub open spec fn whole_of(floats: Floats, text: Seq<char>) -> Option<i64> {
    match entry_for(floats, text, 0) {
        Some(e) => e.whole,
        None => None,
    }
}

impl FloatTexts {
    /// No texts.
    pub fn new() -> (r: Self)
        ensures
            r@ == Seq::<FloatTextView>::empty(),
    {
        let r = FloatTexts { entries: Vec::new() };
        assert(r@ =~= Seq::<FloatTextView>::empty());
        r
    }

    fn find(&self, text: &[char]) -> (r: Option<usize>)
        ensures
            match r {
                Some(i) => i < self.entries@.len() && entry_for(self@, text@, 0) == Some(
                    self@[i as int],
                ),
                None => entry_for(self@, text@, 0) is None,
            },
    {
        let mut i: usize = 0;
        while i < self.entries.len()
            invariant
                i <= self.entries@.len(),
                entry_for(self@, text@, 0) == entry_for(self@, text@, i as int),
            decreases self.entries@.len() - i,
        {
            let t = chars_of(self.entries[i].text.as_str());
            if same_chars(t.as_slice(), text) {
                return Some(i);
            }
            i += 1;
        }
        None
    }

    pub(crate) fn single(&self, text: &[char]) -> (r: Option<u32>)
        ensures
            r == single_of(self@, text@),
    {
        match self.find(text) {
            Some(i) => self.entries[i].single,
            None => None,
        }
    }

    fn whole(&self, text: &[char]) -> (r: Option<i64>)
        ensures
            r == whole_of(self@, text@),
    {
        match self.find(text) {
            Some(i) => self.entries[i].whole,
            None => None,
        }
    }
}

/// The hash that a name spells: `hash_XXXXXXXX` and `0x…` spell a hash out,
/// an empty string is 0, anything else is hashed.
pub open spec fn text_hash(s: Seq<char>) -> u32 {
    let t = crate::chars::trimmed(s);
    let after_hash = crate::chars::unsigned(t.skip("hash_"@.len() as int), true, u32::MAX as int);
    let after_0x = crate::chars::unsigned(t.skip("0x"@.len() as int), true, u32::MAX as int);
    let after_0upper = crate::chars::unsigned(t.skip("0X"@.len() as int), true, u32::MAX as int);
    if t.len() == 0 {
        0
    } else if crate::chars::starts(t, "hash_"@) && after_hash is Some {
        after_hash->0 as u32
    } else if crate::chars::starts(t, "0x"@) && after_0x is Some {
        after_0x->0 as u32
    } else if !crate::chars::starts(t, "0x"@) && crate::chars::starts(t, "0X"@)
        && after_0upper is Some {
        after_0upper->0 as u32
    } else {
        crate::hash::name_hash(t)
    }
}

/// A name as a hash: `hash_XXXXXXXX` and `0x…` spell a hash out, an empty
/// string is 0, anything else is JOAAT-hashed.
pub fn hash_of_str(s: &str) -> (r: u32)
    ensures
        r == text_hash(s@),
{
    let cs = chars_of(s);
    hash_of_chars(cs.as_slice())
}

fn hash_of_chars(cs: &[char]) -> (r: u32)
    ensures
        r == text_hash(cs@),
{
    let t = trim(cs);
    if t.len() == 0 {
        return 0;
    }
    if let Some(hex) = strip(t, "hash_") {
        if let Some(v) = parse_unsigned(hex, true, 0xFFFF_FFFF) {
            return v as u32;
        }
    }
    if let Some(hex) = strip(t, "0x") {
        if let Some(v) = parse_unsigned(hex, true, 0xFFFF_FFFF) {
            return v as u32;
        }
    } else if let Some(hex) = strip(t, "0X") {
        if let Some(v) = parse_unsigned(hex, true, 0xFFFF_FFFF) {
            return v as u32;
        }
    }
    let name = string_of(t);
    rage_joaat(name.as_str())
}

/// What a value is as a hash.
pub open spec fn as_hash(v: ValueView) -> Option<u32> {
    match v {
        ValueView::Null => Some(0),
        ValueView::Hash(h) => Some(h),
        ValueView::Str(s) => Some(text_hash(s)),
        ValueView::U32(x) => Some(x),
        ValueView::I32(x) => Some(x as u32),
        ValueView::I64(x) => Some(x as u32),
        ValueView::U64(x) => Some(x as u32),
        ValueView::Enum { value, .. } => Some(value as u32),
        _ => None,
    }
}

/// A value as a hash.
pub fn hash_of(v: &MetaValue) -> (r: Option<u32>)
    ensures
        r == as_hash(v@),
{
    match v {
        MetaValue::Null => Some(0),
        MetaValue::Hash(h) => Some(*h),
        MetaValue::Str(s) => Some(hash_of_str(s.as_str())),
        MetaValue::U32(x) => Some(*x),
        MetaValue::I32(x) => Some(*x as u32),
        MetaValue::I64(x) => Some(*x as u32),
        MetaValue::U64(x) => Some(*x as u32),
        MetaValue::Enum { value, .. } => Some(*value as u32),
        _ => None,
    }
}

/// The integer that `t` writes in either base: signed where an `i64` holds
/// it, else unsigned and reinterpreted.
pub open spec fn integer_in(t: Seq<char>, hex: bool) -> Option<i64> {
    match crate::chars::signed(t, hex) {
        Some(n) => Some(n as i64),
        None => match crate::chars::unsigned(t, hex, u64::MAX as int) {
            Some(n) => Some((n as u64) as i64),
            None => None,
        },
    }
}

/// The integer that a trimmed text writes: hexadecimal after `0x`, else
/// decimal, else a floating-point number rounded towards zero.
pub open spec fn text_integer(t: Seq<char>, floats: Floats) -> Option<i64> {
    if crate::chars::starts(t, "0x"@) {
        integer_in(t.skip("0x"@.len() as int), true)
    } else if crate::chars::starts(t, "0X"@) {
        integer_in(t.skip("0X"@.len() as int), true)
    } else {
        match integer_in(t, false) {
            Some(n) => Some(n),
            None => whole_of(floats, t),
        }
    }
}

fn read_integer(t: &[char], hex: bool) -> (r: Option<i64>)
    ensures
        r == integer_in(t@, hex),
{
    match parse_signed(t, hex) {
        Some(n) => Some(n),
        None => match parse_unsigned(t, hex, u64::MAX) {
            Some(n) => Some(n as i64),
            None => None,
        },
    }
}

fn parse_int(t: &[char], floats: &FloatTexts) -> (r: Option<i64>)
    ensures
        r == text_integer(t@, floats@),
{
    if let Some(hex) = strip(t, "0x") {
        read_integer(hex, true)
    } else if let Some(hex) = strip(t, "0X") {
        read_integer(hex, true)
    } else {
        match read_integer(t, false) {
            Some(n) => Some(n),
            None => floats.whole(t),
        }
    }
}

/// What a value is as an integer.
pub open spec fn as_integer(v: ValueView, floats: Floats) -> Option<i64> {
    match v {
        ValueView::Null => Some(0),
        ValueView::Bool(b) => Some(if b { 1 } else { 0 }),
        ValueView::I8(x) => Some(x as i64),
        ValueView::U8(x) => Some(x as i64),
        ValueView::I16(x) => Some(x as i64),
        ValueView::U16(x) => Some(x as i64),
        ValueView::I32(x) => Some(x as i64),
        ValueView::U32(x) => Some(x as i64),
        ValueView::I64(x) => Some(x),
        ValueView::U64(x) => Some(x as i64),
        ValueView::F32(b) => Some(crate::single::to_integer(b)),
        ValueView::Hash(h) => Some(h as i64),
        ValueView::Enum { value, .. } => Some(value as i64),
        ValueView::Flags { bits, .. } => Some(bits as i64),
        ValueView::Str(s) => {
            let t = crate::chars::trimmed(s);
            if crate::chars::lowered(t) == "true"@ {
                Some(1)
            } else if crate::chars::lowered(t) == "false"@ || t.len() == 0 {
                Some(0)
            } else {
                text_integer(t, floats)
            }
        },
        _ => None,
    }
}

/// A value as an integer.
pub fn int_of(v: &MetaValue, floats: &FloatTexts) -> (r: Option<i64>)
    ensures
        r == as_integer(v@, floats@),
{
    match v {
        MetaValue::Null => Some(0),
        MetaValue::Bool(b) => Some(
            if *b {
                1
            } else {
                0
            },
        ),
        MetaValue::I8(x) => Some(*x as i64),
        MetaValue::U8(x) => Some(*x as i64),
        MetaValue::I16(x) => Some(*x as i64),
        MetaValue::U16(x) => Some(*x as i64),
        MetaValue::I32(x) => Some(*x as i64),
        MetaValue::U32(x) => Some(*x as i64),
        MetaValue::I64(x) => Some(*x),
        MetaValue::U64(x) => Some(*x as i64),
        MetaValue::F32(b) => Some(single_to_i64(*b)),
        MetaValue::Hash(h) => Some(*h as i64),
        MetaValue::Enum { value, .. } => Some(*value as i64),
        MetaValue::Flags { bits, .. } => Some(*bits as i64),
        MetaValue::Str(s) => {
            let cs = chars_of(s.as_str());
            let t = trim(cs.as_slice());
            if same_ignoring_case(t, "true") {
                Some(1)
            } else if same_ignoring_case(t, "false") || t.len() == 0 {
                Some(0)
            } else {
                parse_int(t, floats)
            }
        },
        _ => None,
    }
}

/// What a value is as a single, by its bits.
pub open spec fn as_single(v: ValueView, floats: Floats) -> Option<u32> {
    match v {
        ValueView::F32(b) => Some(b),
        ValueView::Str(s) => single_of(floats, crate::chars::trimmed(s)),
        ValueView::Null => Some(0),
        _ => match as_integer(v, floats) {
            Some(n) => Some(crate::single::from_integer(n as int)),
            None => None,
        },
    }
}

/// A value as a single, by its bits.
pub fn float_of(v: &MetaValue, floats: &FloatTexts) -> (r: Option<u32>)
    ensures
        r == as_single(v@, floats@),
{
    match v {
        MetaValue::F32(b) => Some(*b),
        MetaValue::Str(s) => {
            let cs = chars_of(s.as_str());
            floats.single(trim(cs.as_slice()))
        },
        MetaValue::Null => Some(0),
        _ => match int_of(v, floats) {
            Some(n) => Some(i64_to_single(n)),
            None => None,
        },
    }
}

/// Component `k` of a list of values: zero past its end.
pub open spec fn listed_single(items: Seq<ValueView>, k: int, floats: Floats) -> Option<u32> {
    if k < items.len() {
        as_single(items[k], floats)
    } else {
        Some(0)
    }
}

/// Component `k` of a list of texts: zero past its end.
pub open spec fn written_single(parts: Seq<Seq<char>>, k: int, floats: Floats) -> Option<u32> {
    if k < parts.len() {
        single_of(floats, parts[k])
    } else {
        Some(0)
    }
}

/// A vector of four components that may each be missing.
pub open spec fn all_four(x: Option<u32>, y: Option<u32>, z: Option<u32>, w: Option<u32>) -> Option<
    Vec4,
> {
    match (x, y, z, w) {
        (Some(x), Some(y), Some(z), Some(w)) => Some(Vec4 { x, y, z, w }),
        _ => None,
    }
}

/// Whether every part writes a single.
pub open spec fn all_singles(parts: Seq<Seq<char>>, floats: Floats) -> bool {
    forall|k: int| 0 <= k < parts.len() ==> single_of(floats, #[trigger] parts[k]) is Some
}

/// What a value is as a vector of at least `n` components: a vector, a list
/// of numbers, or a `x,y,z` string.
pub open spec fn as_vector(v: ValueView, n: int, floats: Floats) -> Option<Vec4> {
    match v {
        ValueView::Null => Some(Vec4 { x: 0, y: 0, z: 0, w: 0 }),
        ValueView::Vec2(a) => Some(Vec4 { x: a.x, y: a.y, z: 0, w: 0 }),
        ValueView::Vec3(a) => Some(Vec4 { x: a.x, y: a.y, z: a.z, w: 0 }),
        ValueView::Vec4(a) => Some(a),
        ValueView::Array(arr) => if arr.items.len() >= n {
            all_four(
                listed_single(arr.items, 0, floats),
                listed_single(arr.items, 1, floats),
                listed_single(arr.items, 2, floats),
                listed_single(arr.items, 3, floats),
            )
        } else {
            None
        },
        ValueView::Str(s) => {
            let parts = crate::chars::words(s, true);
            if all_singles(parts, floats) && parts.len() >= n {
                all_four(
                    written_single(parts, 0, floats),
                    written_single(parts, 1, floats),
                    written_single(parts, 2, floats),
                    written_single(parts, 3, floats),
                )
            } else {
                None
            }
        },
        _ => None,
    }
}

fn item_single(items: &Vec<MetaValue>, k: usize, floats: &FloatTexts) -> (r: Option<u32>)
    ensures
        r == listed_single(crate::value::values_view(items@), k as int, floats@),
{
    if k < items.len() {
        float_of(&items[k], floats)
    } else {
        Some(0)
    }
}

fn part_single(parts: &Vec<Vec<char>>, k: usize, floats: &FloatTexts) -> (r: Option<u32>)
    ensures
        r == written_single(crate::chars::runs(parts@), k as int, floats@),
{
    if k < parts.len() {
        assert(crate::chars::runs(parts@)[k as int] == parts@[k as int]@);
        floats.single(parts[k].as_slice())
    } else {
        Some(0)
    }
}

fn four(x: Option<u32>, y: Option<u32>, z: Option<u32>, w: Option<u32>) -> (r: Option<Vec4>)
    ensures
        r == all_four(x, y, z, w),
{
    match (x, y, z, w) {
        (Some(x), Some(y), Some(z), Some(w)) => Some(Vec4 { x, y, z, w }),
        _ => None,
    }
}

/// `n` floats from a vector value, a list of numbers or a `x,y,z` string.
pub fn vec_of(v: &MetaValue, n: usize, floats: &FloatTexts) -> (r: Option<Vec4>)
    requires
        n <= 4,
    ensures
        r == as_vector(v@, n as int, floats@),
{
    match v {
        MetaValue::Null => Some(Vec4 { x: 0, y: 0, z: 0, w: 0 }),
        MetaValue::Vec2(a) => Some(Vec4 { x: a.x, y: a.y, z: 0, w: 0 }),
        MetaValue::Vec3(a) => Some(Vec4 { x: a.x, y: a.y, z: a.z, w: 0 }),
        MetaValue::Vec4(a) => Some(*a),
        MetaValue::Array(arr) => {
            assert(arr@.items =~= crate::value::values_view(arr.items@));
            if arr.items.len() < n {
                return None;
            }
            four(
                item_single(&arr.items, 0, floats),
                item_single(&arr.items, 1, floats),
                item_single(&arr.items, 2, floats),
                item_single(&arr.items, 3, floats),
            )
        },
        MetaValue::Str(s) => {
            let cs = chars_of(s.as_str());
            let parts = split_words(cs.as_slice(), true);
            let ghost texts = crate::chars::runs(parts@);
            let mut i: usize = 0;
            while i < parts.len()
                invariant
                    i <= parts@.len(),
                    texts == crate::chars::runs(parts@),
                    texts == crate::chars::words(v@->Str_0, true),
                    v@ is Str,
                    forall|k: int|
                        0 <= k < i ==> single_of(floats@, #[trigger] texts[k]) is Some,
                decreases parts@.len() - i,
            {
                assert(texts[i as int] == parts@[i as int]@);
                if floats.single(parts[i].as_slice()).is_none() {
                    return None;
                }
                i += 1;
            }
            if parts.len() < n {
                return None;
            }
            four(
                part_single(&parts, 0, floats),
                part_single(&parts, 1, floats),
                part_single(&parts, 2, floats),
                part_single(&parts, 3, floats),
            )
        },
        _ => None,
    }
}

/// What a value is as text.
pub open spec fn as_text(v: ValueView) -> Option<Seq<char>> {
    match v {
        ValueView::Str(s) => Some(s),
        ValueView::Null => Some(Seq::empty()),
        ValueView::Hash(h) => if h == 0 {
            Some(Seq::empty())
        } else {
            None
        },
        _ => None,
    }
}

/// A value as text.
pub fn str_of(v: &MetaValue) -> (r: Option<String>)
    ensures
        crate::resource::text_of(r) == as_text(v@),
{
    match v {
        MetaValue::Str(s) => Some(s.clone()),
        MetaValue::Null => Some(String::new()),
        MetaValue::Hash(h) => if *h == 0 {
            Some(String::new())
        } else {
            None
        },
        _ => None,
    }
}

/// `s` without its white space.
pub open spec fn without_space(s: Seq<char>) -> Seq<char>
    decreases s.len(),
{
    if s.len() == 0 {
        Seq::empty()
    } else if crate::chars::is_space(s.last()) {
        without_space(s.drop_last())
    } else {
        without_space(s.drop_last()).push(s.last())
    }
}

/// The bytes that the first `k` pairs of characters write.
pub open spec fn paired_bytes(s: Seq<char>, k: nat) -> Option<Seq<u8>>
    decreases k,
{
    if k == 0 {
        Some(Seq::empty())
    } else {
        match (
            paired_bytes(s, (k - 1) as nat),
            crate::chars::unsigned(s.subrange(2 * (k - 1), 2 * (k as int)), true, 255),
        ) {
            (Some(before), Some(b)) => Some(before.push(b as u8)),
            _ => None,
        }
    }
}

/// The low bytes of the first `k` values as integers.
pub open spec fn listed_bytes(items: Seq<ValueView>, k: nat, floats: Floats) -> Option<Seq<u8>>
    decreases k,
{
    if k == 0 {
        Some(Seq::empty())
    } else {
        match (
            listed_bytes(items, (k - 1) as nat, floats),
            as_integer(items[k - 1], floats),
        ) {
            (Some(before), Some(n)) => Some(before.push(n as u8)),
            _ => None,
        }
    }
}

/// What a value is as raw bytes: a byte value, a hex string or a list of
/// small integers.
pub open spec fn as_bytes(v: ValueView, floats: Floats) -> Option<Seq<u8>> {
    match v {
        ValueView::Bytes(b) => Some(b),
        ValueView::Null => Some(Seq::empty()),
        ValueView::Str(s) => {
            let hex = without_space(s);
            if hex.len() % 2 != 0 {
                None
            } else {
                paired_bytes(hex, (hex.len() / 2) as nat)
            }
        },
        ValueView::Array(arr) => listed_bytes(arr.items, arr.items.len(), floats),
        _ => None,
    }
}

/// The bytes behind an optional list.
pub open spec fn opt_bytes(r: Option<Vec<u8>>) -> Option<Seq<u8>> {
    match r {
        Some(b) => Some(b@),
        None => None,
    }
}

proof fn lemma_paired_none(s: Seq<char>, j: nat, k: nat)
    requires
        j <= k,
        paired_bytes(s, j) is None,
    ensures
        paired_bytes(s, k) is None,
    decreases k,
{
    if j < k {
        lemma_paired_none(s, j, (k - 1) as nat);
    }
}

proof fn lemma_listed_none(items: Seq<ValueView>, floats: Floats, j: nat, k: nat)
    requires
        j <= k,
        listed_bytes(items, j, floats) is None,
    ensures
        listed_bytes(items, k, floats) is None,
    decreases k,
{
    if j < k {
        lemma_listed_none(items, floats, j, (k - 1) as nat);
    }
}

fn hex_bytes(cs: &[char]) -> (r: Option<Vec<u8>>)
    ensures
        opt_bytes(r) == (if without_space(cs@).len() % 2 != 0 {
            None
        } else {
            paired_bytes(without_space(cs@), (without_space(cs@).len() / 2) as nat)
        }),
{
    let mut hex: Vec<char> = Vec::new();
    let mut i: usize = 0;
    while i < cs.len()
        invariant
            i <= cs@.len(),
            hex@ == without_space(cs@.take(i as int)),
            hex@.len() <= i,
        decreases cs@.len() - i,
    {
        assert(cs@.take(i + 1).drop_last() =~= cs@.take(i as int));
        if !is_whitespace(cs[i]) {
            hex.push(cs[i]);
        }
        i += 1;
    }
    assert(cs@.take(i as int) =~= cs@);
    if hex.len() % 2 != 0 {
        return None;
    }
    let mut out: Vec<u8> = Vec::new();
    let mut k: usize = 0;
    while k < hex.len() / 2
        invariant
            k <= hex@.len() / 2,
            hex@.len() % 2 == 0,
            hex@ == without_space(cs@),
            paired_bytes(hex@, k as nat) == Some(out@),
        decreases hex@.len() / 2 - k,
    {
        assert(2 * k + 2 <= hex.len());
        let piece = slice_subrange(hex.as_slice(), 2 * k, 2 * k + 2);
        match parse_unsigned(piece, true, 255) {
            Some(b) => {
                out.push(b as u8);
            },
            None => {
                proof {
                    lemma_paired_none(hex@, (k + 1) as nat, (hex@.len() / 2) as nat);
                }
                return None;
            },
        }
        k += 1;
    }
    Some(out)
}

/// Raw bytes from a byte value, a hex string or a list of small integers.
pub fn bytes_of(v: &MetaValue, floats: &FloatTexts) -> (r: Option<Vec<u8>>)
    ensures
        opt_bytes(r) == as_bytes(v@, floats@),
{
    match v {
        MetaValue::Bytes(b) => Some(to_vec(b.as_slice())),
        MetaValue::Null => Some(Vec::new()),
        MetaValue::Str(s) => {
            let cs = chars_of(s.as_str());
            hex_bytes(cs.as_slice())
        },
        MetaValue::Array(arr) => {
            let ghost items = crate::value::values_view(arr.items@);
            assert(arr@.items =~= items);
            let mut out: Vec<u8> = Vec::new();
            let mut k: usize = 0;
            while k < arr.items.len()
                invariant
                    k <= arr.items@.len(),
                    items == crate::value::values_view(arr.items@),
                    v@ is Array,
                    v@->Array_0.items == items,
                    listed_bytes(items, k as nat, floats@) == Some(out@),
                decreases arr.items@.len() - k,
            {
                match int_of(&arr.items[k], floats) {
                    Some(n) => {
                        out.push(n as u8);
                    },
                    None => {
                        proof {
                            lemma_listed_none(items, floats@, (k + 1) as nat, items.len());
                        }
                        return None;
                    },
                }
                k += 1;
            }
            Some(out)
        },
        _ => None,
    }
}

/// The value of the first enum member of that name.
pub open spec fn member_of(members: Seq<(u32, i32)>, name: u32, i: int) -> Option<i32>
    decreases members.len() - i,
{
    if i >= members.len() {
        None
    } else if members[i].0 == name {
        Some(members[i].1)
    } else {
        member_of(members, name, i + 1)
    }
}

fn find_member(members: &[(u32, i32)], name: u32) -> (r: Option<i32>)
    ensures
        r == member_of(members@, name, 0),
{
    let mut i: usize = 0;
    while i < members.len()
        invariant
            i <= members@.len(),
            member_of(members@, name, 0) == member_of(members@, name, i as int),
        decreases members@.len() - i,
    {
        if members[i].0 == name {
            return Some(members[i].1);
        }
        i += 1;
    }
    None
}

/// What a value is as an enum member's number: the number itself, or a name
/// looked up among the members.
pub open spec fn as_enum(v: ValueView, members: Seq<(u32, i32)>, floats: Floats) -> Option<i32> {
    match v {
        ValueView::Enum { value, .. } => Some(value),
        ValueView::Str(s) => {
            let t = crate::chars::trimmed(s);
            if t.len() == 0 {
                Some(0)
            } else {
                match text_integer(t, floats) {
                    Some(n) => Some(n as i32),
                    None => member_of(members, text_hash(t), 0),
                }
            }
        },
        ValueView::Hash(h) => match member_of(members, h, 0) {
            Some(x) => Some(x),
            None => Some(h as i32),
        },
        _ => match as_integer(v, floats) {
            Some(n) => Some(n as i32),
            None => None,
        },
    }
}

/// The stored value of an enum member: its numeric value, or its name
/// looked up in `members`.
pub fn enum_value(v: &MetaValue, members: &[(u32, i32)], floats: &FloatTexts) -> (r: Option<i32>)
    ensures
        r == as_enum(v@, members@, floats@),
{
    match v {
        MetaValue::Enum { value, .. } => Some(*value),
        MetaValue::Str(s) => {
            let cs = chars_of(s.as_str());
            let t = trim(cs.as_slice());
            if t.len() == 0 {
                return Some(0);
            }
            match parse_int(t, floats) {
                Some(n) => Some(n as i32),
                None => find_member(members, hash_of_chars(t)),
            }
        },
        MetaValue::Hash(h) => match find_member(members, *h) {
            Some(x) => Some(x),
            None => Some(*h as i32),
        },
        _ => match int_of(v, floats) {
            Some(n) => Some(n as i32),
            None => None,
        },
    }
}

/// The bits that the first `k` member names stand for.
pub open spec fn named_bits(names: Seq<Seq<char>>, members: Seq<(u32, i32)>, k: nat) -> Option<u32>
    decreases k,
{
    if k == 0 {
        Some(0)
    } else {
        match (
            named_bits(names, members, (k - 1) as nat),
            member_of(members, text_hash(names[k - 1]), 0),
        ) {
            (Some(bits), Some(value)) => Some(bits | (1u32 << ((value & 31) as u32))),
            _ => None,
        }
    }
}

proof fn lemma_named_none(names: Seq<Seq<char>>, members: Seq<(u32, i32)>, j: nat, k: nat)
    requires
        j <= k,
        named_bits(names, members, j) is None,
    ensures
        named_bits(names, members, k) is None,
    decreases k,
{
    if j < k {
        lemma_named_none(names, members, j, (k - 1) as nat);
    }
}

/// What a value is as a flag set: the stored bits, member names (comma or
/// white-space separated) each contributing the bit of their value, or a list
/// of any of these.
pub open spec fn as_flags(v: ValueView, members: Seq<(u32, i32)>, floats: Floats) -> Option<u32>
    decreases v, 0int,
{
    match v {
        ValueView::Flags { bits, .. } => Some(bits),
        ValueView::Str(s) => {
            let t = crate::chars::trimmed(s);
            if t.len() == 0 {
                Some(0)
            } else {
                match text_integer(t, floats) {
                    Some(n) => Some(n as u32),
                    None => named_bits(
                        crate::chars::words(t, true),
                        members,
                        crate::chars::words(t, true).len(),
                    ),
                }
            }
        },
        ValueView::Array(arr) => listed_flags(arr.items, members, floats, arr.items.len()),
        _ => match as_integer(v, floats) {
            Some(n) => Some(n as u32),
            None => None,
        },
    }
}

/// The bits of the first `k` values together.
pub open spec fn listed_flags(
    items: Seq<ValueView>,
    members: Seq<(u32, i32)>,
    floats: Floats,
    k: nat,
) -> Option<u32>
    decreases items, k,
{
    if k == 0 || k > items.len() {
        Some(0)
    } else {
        match (
            listed_flags(items, members, floats, (k - 1) as nat),
            as_flags(items[k - 1], members, floats),
        ) {
            (Some(a), Some(b)) => Some(a | b),
            _ => None,
        }
    }
}

proof fn lemma_flags_none(
    items: Seq<ValueView>,
    members: Seq<(u32, i32)>,
    floats: Floats,
    j: nat,
    k: nat,
)
    requires
        j <= k <= items.len(),
        listed_flags(items, members, floats, j) is None,
    ensures
        listed_flags(items, members, floats, k) is None,
    decreases k,
{
    if j < k {
        lemma_flags_none(items, members, floats, j, (k - 1) as nat);
    }
}

/// The bits of a flag set: the stored bits, or member names (comma or
/// whitespace separated) each contributing `1 << value`, as CodeWalker does.
pub fn flags_bits(v: &MetaValue, members: &[(u32, i32)], floats: &FloatTexts) -> (r: Option<u32>)
    ensures
        r == as_flags(v@, members@, floats@),
    decreases v,
{
    match v {
        MetaValue::Flags { bits, .. } => Some(*bits),
        MetaValue::Str(s) => {
            let cs = chars_of(s.as_str());
            let t = trim(cs.as_slice());
            if t.len() == 0 {
                return Some(0);
            }
            if let Some(n) = parse_int(t, floats) {
                return Some(n as u32);
            }
            let names = split_words(t, true);
            let ghost texts = crate::chars::runs(names@);
            let mut bits: u32 = 0;
            let mut k: usize = 0;
            while k < names.len()
                invariant
                    k <= names@.len(),
                    texts == crate::chars::runs(names@),
                    texts == crate::chars::words(t@, true),
                    v@ is Str,
                    t@ == crate::chars::trimmed(v@->Str_0),
                    t@.len() > 0,
                    text_integer(t@, floats@) is None,
                    named_bits(texts, members@, k as nat) == Some(bits),
                decreases names@.len() - k,
            {
                assert(texts[k as int] == names@[k as int]@);
                match find_member(members, hash_of_chars(names[k].as_slice())) {
                    Some(value) => {
                        let place = (value & 31) as u32;
                        assert(0 <= (value & 31) < 32) by (bit_vector);
                        bits = bits | (1u32 << place);
                    },
                    None => {
                        proof {
                            lemma_named_none(texts, members@, (k + 1) as nat, texts.len());
                        }
                        return None;
                    },
                }
                k += 1;
            }
            Some(bits)
        },
        MetaValue::Array(arr) => {
            let ghost items = crate::value::values_view(arr.items@);
            assert(arr@.items =~= items);
            let mut bits: u32 = 0;
            let mut k: usize = 0;
            while k < arr.items.len()
                invariant
                    k <= arr.items@.len(),
                    items == crate::value::values_view(arr.items@),
                    v@ is Array,
                    v@->Array_0.items == items,
                    *v == MetaValue::Array(*arr),
                    listed_flags(items, members@, floats@, k as nat) == Some(bits),
                decreases arr.items@.len() - k,
            {
                assert(items[k as int] == arr.items@[k as int]@);
                match flags_bits(&arr.items[k], members, floats) {
                    Some(b) => {
                        bits = bits | b;
                    },
                    None => {
                        proof {
                            lemma_flags_none(items, members@, floats@, (k + 1) as nat, items.len());
                        }
                        return None;
                    },
                }
                k += 1;
            }
            Some(bits)
        },
        _ => match int_of(v, floats) {
            Some(n) => Some(n as u32),
            None => None,
        },
    }
}

} // verus!
