//! Names for the hashes in self-describing metadata. Structure, member and
//! enum names are stored as exact-case JOAAT hashes; this table turns them
//! back into text. Names are added from lists of one name per line, such as
//! one harvested from the game's own XML metadata.

use std::collections::HashMap;
use vstd::prelude::*;
use vstd::slice::*;
use vstd::string::*;

use crate::chars::{parse_unsigned, same_chars, split_at_char, strip, trim};
use crate::hash::rage_joaat;
use crate::text::{chars_of, push_hex, string_of};

verus! {

broadcast use {vstd::slice::group_slice_axioms, vstd::std_specs::hash::group_hash_axioms};

/// A hash → name lookup.
#[derive(Debug)]
pub struct NameTable {
    map: HashMap<u32, String>,
}

/// A table with one more name, unless its hash has one already.
pub open spec fn with_name(names: Map<u32, Seq<char>>, name: Seq<char>) -> Map<u32, Seq<char>> {
    let hash = crate::hash::name_hash(name);
    if names.contains_key(hash) {
        names
    } else {
        names.insert(hash, name)
    }
}

/// Whether a line holds no name: it is blank or a `#` comment.
pub open spec fn is_skipped(name: Seq<char>) -> bool {
    name.len() == 0 || name[0] == '#'
}

/// A table with the names of the first `n` lines.
pub open spec fn with_lines(
    names: Map<u32, Seq<char>>,
    lines: Seq<Seq<char>>,
    n: nat,
) -> Map<u32, Seq<char>>
    decreases n,
{
    if n == 0 {
        names
    } else {
        let before = with_lines(names, lines, (n - 1) as nat);
        let name = crate::chars::trimmed(lines[n - 1]);
        if is_skipped(name) {
            before
        } else {
            with_name(before, name)
        }
    }
}

/// How many of the first `n` lines hold a name whose hash has none yet.
pub open spec fn new_names(names: Map<u32, Seq<char>>, lines: Seq<Seq<char>>, n: nat) -> nat
    decreases n,
{
    if n == 0 {
        0
    } else {
        let before = with_lines(names, lines, (n - 1) as nat);
        let name = crate::chars::trimmed(lines[n - 1]);
        new_names(names, lines, (n - 1) as nat) + (if is_skipped(name) || before.contains_key(
            crate::hash::name_hash(name),
        ) {
            0nat
        } else {
            1nat
        })
    }
}

/// A table with every name of a text, one per line.
pub open spec fn with_list(names: Map<u32, Seq<char>>, text: Seq<char>) -> Map<u32, Seq<char>> {
    let lines = crate::chars::pieces(text, '\n');
    with_lines(names, lines, lines.len())
}

/// The placeholder for a hash with no known name; `0` for a zero hash, which
/// never names anything.
pub open spec fn placeholder(hash: u32) -> Seq<char> {
    if hash == 0 {
        "0"@
    } else {
        "hash_"@ + crate::text::hex(hash as nat, 8)
    }
}

/// The hash that a text of the shape `hash_XXXXXXXX` spells, in digits of
/// either case.
spec fn spelled_hash(s: Seq<char>) -> Option<u32> {
    let prefix = "hash_"@;
    if !crate::chars::starts(s, prefix) || s.len() != prefix.len() + 8 {
        None
    } else {
        match crate::chars::unsigned(s.skip(prefix.len() as int), true, 0xFFFF_FFFF) {
            Some(n) => Some(n as u32),
            None => None,
        }
    }
}

impl View for NameTable {
    type V = Map<u32, Seq<char>>;

    closed spec fn view(&self) -> Map<u32, Seq<char>> {
        Map::new(|h: u32| self.map@.contains_key(h), |h: u32| self.map@[h]@)
    }
}

impl NameTable {
    /// No names at all: every hash prints as `hash_XXXXXXXX`.
    pub fn empty() -> (r: Self)
        ensures
            r@ == Map::<u32, Seq<char>>::empty(),
    {
        let r = NameTable { map: HashMap::new() };
        assert(r@ =~= Map::<u32, Seq<char>>::empty());
        r
    }

    /// The names of the two lists that come with the formats: the library's
    /// own, then CodeWalker's.
    pub fn with_core(core_names: &str, codewalker_names: &str) -> (r: Self)
        ensures
            r@ == with_list(with_list(Map::empty(), core_names@), codewalker_names@),
    {
        let mut t = Self::empty();
        t.add_list(core_names);
        t.add_list(codewalker_names);
        t
    }

    /// Adds every name in `text` (one per line; blank lines and `#`
    /// comments skipped). Returns how many names were new.
    pub fn add_list(&mut self, text: &str) -> (added: usize)
        ensures
            final(self)@ == with_list(old(self)@, text@),
            added == new_names(
                old(self)@,
                crate::chars::pieces(text@, '\n'),
                crate::chars::pieces(text@, '\n').len(),
            ),
    {
        let ghost before = self@;
        let cs = chars_of(text);
        let lines = split_at_char(cs.as_slice(), '\n');
        let ghost all = crate::chars::pieces(text@, '\n');
        assert(crate::chars::runs(lines@) == all);
        assert(lines@.len() == all.len());
        let mut added: usize = 0;
        let mut i: usize = 0;
        while i < lines.len()
            invariant
                i <= lines@.len() == all.len(),
                added <= i,
                crate::chars::runs(lines@) == all,
                before == old(self)@,
                self@ == with_lines(before, all, i as nat),
                added == new_names(before, all, i as nat),
            decreases lines@.len() - i,
        {
            assert(all[i as int] == lines@[i as int]@);
            let name = trim(lines[i].as_slice());
            if name.len() > 0 && name[0] != '#' {
                let s = string_of(name);
                if self.add(s.as_str()) {
                    added += 1;
                }
            }
            i += 1;
        }
        added
    }

    /// Adds one name. False when its hash was already present.
    pub fn add(&mut self, name: &str) -> (added: bool)
        ensures
            final(self)@ == with_name(old(self)@, name@),
            added == !old(self)@.contains_key(crate::hash::name_hash(name@)),
    {
        let ghost before = self@;
        let hash = rage_joaat(name);
        if self.map.contains_key(&hash) {
            return false;
        }
        let s = name.to_string();
        self.map.insert(hash, s);
        assert(self@ =~= before.insert(hash, name@));
        true
    }

    pub fn len(&self) -> (n: usize)
        ensures
            self@.dom().finite(),
            n == self@.len(),
    {
        assert(self@.dom() =~= self.map@.dom());
        self.map.len()
    }

    pub fn is_empty(&self) -> (r: bool)
        ensures
            r == (self@.len() == 0),
    {
        self.len() == 0
    }

    /// The name of `hash`, if known.
    pub fn get(&self, hash: u32) -> (r: Option<&str>)
        ensures
            match r {
                Some(name) => self@.contains_key(hash) && name@ == self@[hash],
                None => !self@.contains_key(hash),
            },
    {
        match self.map.get(&hash) {
            Some(s) => Some(s.as_str()),
            None => None,
        }
    }

    /// The name of `hash`, or `hash_XXXXXXXX` when unknown (and `0` for a
    /// zero hash, which never names anything).
    pub fn resolve(&self, hash: u32) -> (r: String)
        ensures
            r@ == named(self@, hash),
    {
        if hash == 0 {
            return unknown(0);
        }
        match self.get(hash) {
            Some(n) => n.to_string(),
            None => unknown(hash),
        }
    }
}

/// The name of a hash, or its placeholder. A zero hash names nothing, whatever
/// a table holds.
pub open spec fn named(names: Map<u32, Seq<char>>, hash: u32) -> Seq<char> {
    if hash != 0 && names.contains_key(hash) {
        names[hash]
    } else {
        placeholder(hash)
    }
}

impl Default for NameTable {
    fn default() -> (r: Self)
        ensures
            r@ == Map::<u32, Seq<char>>::empty(),
    {
        Self::empty()
    }
}

/// The placeholder for a hash with no known name.
pub fn unknown(hash: u32) -> (r: String)
    ensures
        r@ == placeholder(hash),
{
    if hash == 0 {
        "0".to_string()
    } else {
        let mut s = "hash_".to_string();
        push_hex(&mut s, hash as u64, 8);
        s
    }
}

/// The hash of a placeholder that [`unknown`] produced, nothing for any other
/// text.
pub fn parse_unknown(s: &str) -> (r: Option<u32>)
    ensures
        forall|h: u32| r == Some(h) <==> s@ == #[trigger] placeholder(h),
{
    proof {
        assert forall|a: u32, b: u32| #[trigger] placeholder(a) == #[trigger] placeholder(
            b,
        ) implies a == b by {
            law_placeholders_differ(a, b);
        }
        assert forall|h: u32| s@ == #[trigger] placeholder(h) && h != 0 implies spelled_hash(s@)
            == Some(h) by {
            lemma_spelled(h);
        }
    }
    let cs = chars_of(s);
    let zero = chars_of("0");
    if same_chars(cs.as_slice(), zero.as_slice()) {
        assert(s@ == placeholder(0));
        return Some(0);
    }
    let hash = match strip(cs.as_slice(), "hash_") {
        None => {
            return None;
        },
        Some(hex) => {
            if hex.len() != 8 {
                return None;
            }
            match parse_unsigned(hex, true, 0xFFFF_FFFF) {
                Some(n) => n as u32,
                None => {
                    return None;
                },
            }
        },
    };
    let text = unknown(hash);
    let printed = chars_of(text.as_str());
    if same_chars(cs.as_slice(), printed.as_slice()) {
        assert(s@ == placeholder(hash));
        Some(hash)
    } else {
        None
    }
}

// ─── laws ────────────────────────────────────────────────────────────────────

proof fn lemma_spelled(hash: u32)
    requires
        hash != 0,
    ensures
        spelled_hash(placeholder(hash)) == Some(hash),
{
    let h = crate::text::hex(hash as nat, 8);
    reveal_with_fuel(crate::text::pow16, 9);
    crate::text::law_hex_round_trip(hash as nat, 8);
    reveal_strlit("hash_");
    let s = placeholder(hash);
    assert(s.take(5) =~= "hash_"@);
    assert(s.skip(5) =~= h);
    assert(crate::text::hex_value(h[0]) is Some) by {
        reveal_with_fuel(crate::text::hex, 9);
    }
}

/// A table holds finitely many names.
pub proof fn law_tables_are_finite(t: NameTable)
    ensures
        t@.dom().finite(),
{
    broadcast use vstd::std_specs::hash::group_hash_axioms;

    assert(t@.dom() =~= t.map@.dom());
}

/// No two hashes have the same placeholder.
pub proof fn law_placeholders_differ(a: u32, b: u32)
    requires
        placeholder(a) == placeholder(b),
    ensures
        a == b,
{
    reveal_strlit("0");
    reveal_strlit("hash_");
    if a != 0 {
        lemma_spelled(a);
        assert(placeholder(a).len() >= 5);
    }
    if b != 0 {
        lemma_spelled(b);
        assert(placeholder(b).len() >= 5);
    }
}

/// A name that is there stays as it is, whatever is added.
pub proof fn law_names_are_never_replaced(names: Map<u32, Seq<char>>, text: Seq<char>, hash: u32)
    requires
        names.contains_key(hash),
    ensures
        with_list(names, text).contains_key(hash),
        with_list(names, text)[hash] == names[hash],
{
    let lines = crate::chars::pieces(text, '\n');
    lemma_lines_keep(names, lines, lines.len(), hash);
}

proof fn lemma_lines_keep(
    names: Map<u32, Seq<char>>,
    lines: Seq<Seq<char>>,
    n: nat,
    hash: u32,
)
    requires
        names.contains_key(hash),
    ensures
        with_lines(names, lines, n).contains_key(hash),
        with_lines(names, lines, n)[hash] == names[hash],
    decreases n,
{
    if n > 0 {
        lemma_lines_keep(names, lines, (n - 1) as nat, hash);
    }
}

/// Every hash in a table built from lists is the hash of its name.
pub proof fn law_hashes_match_names(names: Map<u32, Seq<char>>, text: Seq<char>)
    requires
        forall|h: u32| #[trigger]
            names.contains_key(h) ==> crate::hash::name_hash(names[h]) == h,
    ensures
        forall|h: u32| #[trigger]
            with_list(names, text).contains_key(h) ==> crate::hash::name_hash(
                with_list(names, text)[h],
            ) == h,
{
    let lines = crate::chars::pieces(text, '\n');
    lemma_lines_match(names, lines, lines.len());
}

proof fn lemma_lines_match(names: Map<u32, Seq<char>>, lines: Seq<Seq<char>>, n: nat)
    requires
        forall|h: u32| #[trigger]
            names.contains_key(h) ==> crate::hash::name_hash(names[h]) == h,
    ensures
        forall|h: u32| #[trigger]
            with_lines(names, lines, n).contains_key(h) ==> crate::hash::name_hash(
                with_lines(names, lines, n)[h],
            ) == h,
    decreases n,
{
    if n > 0 {
        lemma_lines_match(names, lines, (n - 1) as nat);
        assert forall|h: u32| #[trigger]
            with_lines(names, lines, n).contains_key(h) implies crate::hash::name_hash(
            with_lines(names, lines, n)[h],
        ) == h by {
            if with_lines(names, lines, (n - 1) as nat).contains_key(h) {
            }
        }
    }
}

} // verus!
