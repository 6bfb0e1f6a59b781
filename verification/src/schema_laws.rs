//! What the words of a schema table mean.

use vstd::prelude::*;

use crate::schema::{
    MetaEntryDef, MetaEnumDefView, MetaStructDefView, PsoEntryDef, PsoEnumDefView,
    PsoStructDefView, SchemaErrorView, SchemaView,
};

verus! {

pub proof fn lemma_hex_digits(n: nat, width: nat)
    ensures
        crate::text::hex(n, width).len() == width,
        forall|i: int|
            0 <= i < width ==> {
                let c = #[trigger] crate::text::hex(n, width)[i];
                '0' <= c <= '9' || 'A' <= c <= 'F'
            },
    decreases width,
{
    if width > 0 {
        lemma_hex_digits(n / 16, (width - 1) as nat);
        let s = crate::text::hex(n, width);
        let before = crate::text::hex(n / 16, (width - 1) as nat);
        assert forall|i: int| 0 <= i < width implies {
            let c = #[trigger] s[i];
            '0' <= c <= '9' || 'A' <= c <= 'F'
        } by {
            if i < width - 1 {
                assert(s[i] == before[i]);
            }
        }
    }
}

/// Eight hexadecimal digits write the word they are made of, two a byte.
pub proof fn lemma_hash_word(n: u32)
    ensures
        crate::schema::hash_word(crate::text::hex(n as nat, 8)) == Ok::<u32, SchemaErrorView>(n),
        n <= 0xFF ==> crate::schema::hash_word(crate::text::hex(n as nat, 2)) == Ok::<
            u32,
            SchemaErrorView,
        >(n),
{
    reveal_with_fuel(crate::text::pow16, 9);
    lemma_hex_digits(n as nat, 8);
    lemma_hex_digits(n as nat, 2);
    crate::text::law_hex_round_trip(n as nat, 8);
    let a = crate::text::hex(n as nat, 8);
    assert(a[0] != '+');
    if n <= 0xFF {
        crate::text::law_hex_round_trip(n as nat, 2);
        let b = crate::text::hex(n as nat, 2);
        assert(b[0] != '+');
    }
}

/// A decimal number writes the number it is made of.
pub proof fn lemma_number_word(n: i64)
    ensures
        crate::schema::number_word(crate::text::signed_decimal(n as int)) == Ok::<
            i64,
            SchemaErrorView,
        >(n),
{
    let s = crate::text::signed_decimal(n as int);
    let m = if n < 0 {
        (-(n as int)) as nat
    } else {
        n as nat
    };
    let d = crate::text::decimal(m);
    crate::xml_laws::lemma_decimal_digits(m);
    crate::text::law_decimal_round_trip(m);
    assert('0' <= d[0] <= '9');
    if n < 0 {
        assert(s.skip(1) =~= d);
        assert(s[0] == '-');
    } else {
        assert(s == d);
    }
}

/// Words with a character between each two.
pub open spec fn joined(words: Seq<Seq<char>>, c: char) -> Seq<char>
    decreases words.len(),
{
    if words.len() == 0 {
        Seq::empty()
    } else if words.len() == 1 {
        words[0]
    } else {
        words[0] + seq![c] + joined(words.skip(1), c)
    }
}

/// Whether a word does not hold a character.
pub open spec fn is_bare(word: Seq<char>, c: char) -> bool {
    forall|i: int| 0 <= i < word.len() ==> #[trigger] word[i] != c
}

proof fn lemma_next_shift(front: Seq<char>, s: Seq<char>, i: int, c: char)
    requires
        0 <= i <= s.len(),
    ensures
        crate::chars::next_char(front + s, c, front.len() + i) == front.len()
            + crate::chars::next_char(s, c, i),
    decreases s.len() - i,
{
    if i < s.len() {
        assert((front + s)[front.len() + i] == s[i]);
        if s[i] != c {
            lemma_next_shift(front, s, i + 1, c);
        }
    }
}

proof fn lemma_next_bound(s: Seq<char>, i: int, c: char)
    requires
        0 <= i <= s.len(),
    ensures
        i <= crate::chars::next_char(s, c, i) <= s.len(),
    decreases s.len() - i,
{
    if i < s.len() && s[i] != c {
        lemma_next_bound(s, i + 1, c);
    }
}

proof fn lemma_pieces_shift(front: Seq<char>, s: Seq<char>, i: int, c: char)
    requires
        0 <= i <= s.len(),
    ensures
        crate::chars::pieces_from(front + s, c, front.len() + i) == crate::chars::pieces_from(
            s,
            c,
            i,
        ),
    decreases s.len() - i,
{
    let all = front + s;
    let at = front.len() + i;
    let b = crate::chars::next_char(s, c, i);
    lemma_next_shift(front, s, i, c);
    lemma_next_bound(s, i, c);
    if b < s.len() {
        lemma_pieces_shift(front, s, b + 1, c);
        assert(all.subrange(at, front.len() + b) =~= s.subrange(i, b));
    } else {
        assert(all.subrange(at, all.len() as int) =~= s.subrange(i, s.len() as int));
    }
}

proof fn lemma_next_in_bare(word: Seq<char>, rest: Seq<char>, i: int, c: char)
    requires
        is_bare(word, c),
        0 <= i <= word.len(),
    ensures
        crate::chars::next_char(word + seq![c] + rest, c, i) == word.len(),
        crate::chars::next_char(word, c, i) == word.len(),
    decreases word.len() - i,
{
    let all = word + seq![c] + rest;
    if i < word.len() {
        assert(all[i] == word[i]);
        assert(word[i] != c);
        lemma_next_in_bare(word, rest, i + 1, c);
    } else {
        assert(all[i] == c);
    }
}

/// Joined words come apart into the same words.
pub proof fn lemma_pieces(words: Seq<Seq<char>>, c: char)
    requires
        words.len() > 0,
        forall|i: int| 0 <= i < words.len() ==> is_bare(#[trigger] words[i], c),
    ensures
        crate::chars::pieces(joined(words, c), c) == words,
    decreases words.len(),
{
    let w = words[0];
    assert(is_bare(w, c));
    if words.len() == 1 {
        lemma_next_in_bare(w, Seq::empty(), 0, c);
        assert(w.subrange(0, w.len() as int) =~= w);
        assert(crate::chars::pieces(w, c) =~= words);
    } else {
        let rest = words.skip(1);
        assert forall|i: int| 0 <= i < rest.len() implies is_bare(#[trigger] rest[i], c) by {
            assert(rest[i] == words[i + 1]);
        }
        lemma_pieces(rest, c);
        let s = joined(rest, c);
        let front = w + seq![c];
        let all = w + seq![c] + s;
        lemma_next_in_bare(w, s, 0, c);
        lemma_pieces_shift(front, s, 0, c);
        assert(all =~= front + s);
        assert(all.subrange(0, w.len() as int) =~= w);
        assert(crate::chars::pieces(all, c) =~= seq![w] + crate::chars::pieces(s, c));
        assert(seq![w] + rest =~= words);
    }
}

proof fn lemma_bare_hex(n: nat, width: nat)
    ensures
        is_bare(crate::text::hex(n, width), ','),
{
    lemma_hex_digits(n, width);
}

pub proof fn lemma_bare_decimal(n: int, c: char)
    requires
        c == ',' || c == ' ',
    ensures
        is_bare(crate::text::signed_decimal(n), c),
{
    let m = if n < 0 {
        (-n) as nat
    } else {
        n as nat
    };
    let d = crate::text::decimal(m);
    let s = crate::text::signed_decimal(n);
    crate::xml_laws::lemma_decimal_digits(m);
    assert forall|i: int| 0 <= i < s.len() implies #[trigger] s[i] != c by {
        if n < 0 && i > 0 {
            assert(s[i] == d[i - 1]);
        } else if n >= 0 {
            assert(s[i] == d[i]);
        }
    }
}

/// The six fields of a Meta member, as words.
pub open spec fn meta_member_fields(e: MetaEntryDef) -> Seq<Seq<char>> {
    seq![
        crate::text::hex(e.name as nat, 8),
        crate::text::signed_decimal(e.offset as int),
        crate::text::hex(e.ty as nat, 2),
        crate::text::signed_decimal(e.unk9 as int),
        crate::text::signed_decimal(e.ref_index as int),
        crate::text::hex(e.ref_key as nat, 8),
    ]
}

/// A Meta member reads back from its six fields: the name, the offset, the
/// type, the byte behind it, the index and the key.
pub proof fn law_meta_members_read_back(e: MetaEntryDef, line: int)
    ensures
        crate::schema::meta_member_word(joined(meta_member_fields(e), ','), line) == Ok::<
            MetaEntryDef,
            SchemaErrorView,
        >(e),
{
    let f = meta_member_fields(e);
    lemma_bare_hex(e.name as nat, 8);
    lemma_bare_decimal(e.offset as int, ',');
    lemma_bare_hex(e.ty as nat, 2);
    lemma_bare_decimal(e.unk9 as int, ',');
    lemma_bare_decimal(e.ref_index as int, ',');
    lemma_bare_hex(e.ref_key as nat, 8);
    lemma_pieces(f, ',');
    lemma_hash_word(e.name);
    lemma_number_word(e.offset as i64);
    lemma_hash_word(e.ty as u32);
    lemma_number_word(e.unk9 as i64);
    lemma_number_word(e.ref_index as i64);
    lemma_hash_word(e.ref_key);
    assert(f[0] == crate::text::hex(e.name as nat, 8));
}

/// The five fields of a PSO member, as words.
pub open spec fn pso_member_fields(e: PsoEntryDef) -> Seq<Seq<char>> {
    seq![
        crate::text::hex(e.name as nat, 8),
        crate::text::hex(e.ty as nat, 2),
        crate::text::signed_decimal(e.offset as int),
        crate::text::signed_decimal(e.subtype as int),
        crate::text::hex(e.ref_key as nat, 8),
    ]
}

/// A PSO member reads back from its five fields: the name, the type, the
/// offset, the subtype and the key.
pub proof fn law_pso_members_read_back(e: PsoEntryDef, line: int)
    ensures
        crate::schema::pso_member_word(joined(pso_member_fields(e), ','), line) == Ok::<
            PsoEntryDef,
            SchemaErrorView,
        >(e),
{
    let f = pso_member_fields(e);
    lemma_bare_hex(e.name as nat, 8);
    lemma_bare_hex(e.ty as nat, 2);
    lemma_bare_decimal(e.offset as int, ',');
    lemma_bare_decimal(e.subtype as int, ',');
    lemma_bare_hex(e.ref_key as nat, 8);
    lemma_pieces(f, ',');
    lemma_hash_word(e.name);
    lemma_hash_word(e.ty as u32);
    lemma_number_word(e.offset as i64);
    lemma_number_word(e.subtype as i64);
    lemma_hash_word(e.ref_key);
    assert(f[0] == crate::text::hex(e.name as nat, 8));
}

/// An enum member reads back from its name and its value.
pub proof fn law_enum_members_read_back(name: u32, value: i32, line: int)
    ensures
        crate::schema::enumerator_word(
            crate::text::hex(name as nat, 8) + seq![','] + crate::text::signed_decimal(
                value as int,
            ),
            line,
        ) == Ok::<(u32, i32), SchemaErrorView>((name, value)),
{
    let a = crate::text::hex(name as nat, 8);
    let b = crate::text::signed_decimal(value as int);
    let t = a + seq![','] + b;
    lemma_bare_hex(name as nat, 8);
    lemma_next_in_bare(a, b, 0, ',');
    assert(t.take(a.len() as int) =~= a);
    assert(t.skip(a.len() as int + 1) =~= b);
    lemma_hash_word(name);
    lemma_number_word(value as i64);
}

proof fn lemma_meta_member_words(words: Seq<Seq<char>>, entries: Seq<MetaEntryDef>, k: int, line: int)
    requires
        words.len() == 5 + entries.len(),
        0 <= k <= entries.len(),
        forall|i: int|
            0 <= i < entries.len() ==> words[5 + i] == joined(
                meta_member_fields(#[trigger] entries[i]),
                ',',
            ),
    ensures
        crate::schema::meta_member_words(words, 5, 5 + k, line) == Ok::<
            Seq<MetaEntryDef>,
            SchemaErrorView,
        >(entries.take(k)),
    decreases k,
{
    if k > 0 {
        lemma_meta_member_words(words, entries, k - 1, line);
        law_meta_members_read_back(entries[k - 1], line);
        assert(words[5 + (k - 1)] == joined(meta_member_fields(entries[k - 1]), ','));
        assert(entries.take(k) =~= entries.take(k - 1).push(entries[k - 1]));
    } else {
        assert(entries.take(0) =~= Seq::empty());
    }
}

/// A Meta structure reads back from its record: the name, the key, a number,
/// the size, and a word for each member, in order. Nothing else changes.
pub proof fn law_meta_structures_read_back(
    s: SchemaView,
    words: Seq<Seq<char>>,
    d: MetaStructDefView,
    line: int,
)
    requires
        words.len() == 5 + d.entries.len(),
        words[1] == crate::text::hex(d.name as nat, 8),
        words[2] == crate::text::hex(d.key as nat, 8),
        words[3] == crate::text::signed_decimal(d.unk8 as int),
        words[4] == crate::text::signed_decimal(d.size as int),
        forall|i: int|
            0 <= i < d.entries.len() ==> words[5 + i] == joined(
                meta_member_fields(#[trigger] d.entries[i]),
                ',',
            ),
    ensures
        crate::schema::with_meta_struct(s, words, line) == Ok::<SchemaView, SchemaErrorView>(
            SchemaView { meta_structs: s.meta_structs.insert(d.name, d), ..s },
        ),
{
    lemma_hash_word(d.name);
    lemma_hash_word(d.key);
    lemma_number_word(d.unk8 as i64);
    lemma_number_word(d.size as i64);
    lemma_meta_member_words(words, d.entries, d.entries.len() as int, line);
    assert(d.entries.take(d.entries.len() as int) =~= d.entries);
}

proof fn lemma_pso_member_words(words: Seq<Seq<char>>, entries: Seq<PsoEntryDef>, k: int, line: int)
    requires
        words.len() == 5 + entries.len(),
        0 <= k <= entries.len(),
        forall|i: int|
            0 <= i < entries.len() ==> words[5 + i] == joined(
                pso_member_fields(#[trigger] entries[i]),
                ',',
            ),
    ensures
        crate::schema::pso_member_words(words, 5, 5 + k, line) == Ok::<
            Seq<PsoEntryDef>,
            SchemaErrorView,
        >(entries.take(k)),
    decreases k,
{
    if k > 0 {
        lemma_pso_member_words(words, entries, k - 1, line);
        law_pso_members_read_back(entries[k - 1], line);
        assert(words[5 + (k - 1)] == joined(pso_member_fields(entries[k - 1]), ','));
        assert(entries.take(k) =~= entries.take(k - 1).push(entries[k - 1]));
    } else {
        assert(entries.take(0) =~= Seq::empty());
    }
}

/// A PSO structure reads back from its record: the name, the kind, a number,
/// the size, and a word for each member, in order. Nothing else changes.
pub proof fn law_pso_structures_read_back(
    s: SchemaView,
    words: Seq<Seq<char>>,
    d: PsoStructDefView,
    line: int,
)
    requires
        words.len() == 5 + d.entries.len(),
        words[1] == crate::text::hex(d.name as nat, 8),
        words[2] == crate::text::signed_decimal(d.ty as int),
        words[3] == crate::text::signed_decimal(d.unk as int),
        words[4] == crate::text::signed_decimal(d.size as int),
        forall|i: int|
            0 <= i < d.entries.len() ==> words[5 + i] == joined(
                pso_member_fields(#[trigger] d.entries[i]),
                ',',
            ),
    ensures
        crate::schema::with_pso_struct(s, words, line) == Ok::<SchemaView, SchemaErrorView>(
            SchemaView { pso_structs: s.pso_structs.insert(d.name, d), ..s },
        ),
{
    lemma_hash_word(d.name);
    lemma_number_word(d.ty as i64);
    lemma_number_word(d.unk as i64);
    lemma_number_word(d.size as i64);
    lemma_pso_member_words(words, d.entries, d.entries.len() as int, line);
    assert(d.entries.take(d.entries.len() as int) =~= d.entries);
}

/// A member of an enum as a word.
pub open spec fn enumerator_text(m: (u32, i32)) -> Seq<char> {
    crate::text::hex(m.0 as nat, 8) + seq![','] + crate::text::signed_decimal(m.1 as int)
}

proof fn lemma_enumerator_words(words: Seq<Seq<char>>, entries: Seq<(u32, i32)>, k: int, line: int)
    requires
        words.len() == 3 + entries.len(),
        0 <= k <= entries.len(),
        forall|i: int|
            0 <= i < entries.len() ==> words[3 + i] == enumerator_text(#[trigger] entries[i]),
    ensures
        crate::schema::enumerator_words(words, 3, 3 + k, line) == Ok::<
            Seq<(u32, i32)>,
            SchemaErrorView,
        >(entries.take(k)),
    decreases k,
{
    if k > 0 {
        lemma_enumerator_words(words, entries, k - 1, line);
        law_enum_members_read_back(entries[k - 1].0, entries[k - 1].1, line);
        assert(words[3 + (k - 1)] == enumerator_text(entries[k - 1]));
        assert(entries.take(k) =~= entries.take(k - 1).push(entries[k - 1]));
    } else {
        assert(entries.take(0) =~= Seq::empty());
    }
}

/// An enum of either kind reads back from its record: the name, the key or the
/// kind, and a word for each member, in order. Nothing else changes.
pub proof fn law_enums_read_back(
    s: SchemaView,
    words: Seq<Seq<char>>,
    name: u32,
    key: u32,
    ty: u8,
    entries: Seq<(u32, i32)>,
    line: int,
)
    requires
        words.len() == 3 + entries.len(),
        words[1] == crate::text::hex(name as nat, 8),
        forall|i: int|
            0 <= i < entries.len() ==> words[3 + i] == enumerator_text(#[trigger] entries[i]),
    ensures
        words[2] == crate::text::hex(key as nat, 8) ==> crate::schema::with_meta_enum(
            s,
            words,
            line,
        ) == Ok::<SchemaView, SchemaErrorView>(
            SchemaView {
                meta_enums: s.meta_enums.insert(name, MetaEnumDefView { name, key, entries }),
                ..s
            },
        ),
        words[2] == crate::text::signed_decimal(ty as int) ==> crate::schema::with_pso_enum(
            s,
            words,
            line,
        ) == Ok::<SchemaView, SchemaErrorView>(
            SchemaView {
                pso_enums: s.pso_enums.insert(name, PsoEnumDefView { name, ty, entries }),
                ..s
            },
        ),
{
    lemma_hash_word(name);
    lemma_hash_word(key);
    lemma_number_word(ty as i64);
    lemma_enumerator_words(words, entries, entries.len() as int, line);
    assert(entries.take(entries.len() as int) =~= entries);
}

/// A record is read as what its first word says; comments and blank lines add
/// nothing.
pub proof fn law_records_by_their_first_word(s: SchemaView, text: Seq<char>, line: int)
    ensures
        ({
            let t = crate::chars::trimmed(text);
            let w = crate::chars::words(t, false);
            &&& t.len() > 0 && t[0] == '#' ==> crate::schema::with_line(s, text, line) == Ok::<
                SchemaView,
                SchemaErrorView,
            >(s)
            &&& t.len() == 0 ==> crate::schema::with_line(s, text, line) == Ok::<
                SchemaView,
                SchemaErrorView,
            >(s)
            &&& t.len() > 0 && t[0] != '#' && w.len() > 0 ==> {
                &&& w[0] == "M"@ ==> crate::schema::with_line(s, text, line)
                    == crate::schema::with_meta_struct(s, w, line)
                &&& w[0] == "ME"@ ==> crate::schema::with_line(s, text, line)
                    == crate::schema::with_meta_enum(s, w, line)
                &&& w[0] == "P"@ ==> crate::schema::with_line(s, text, line)
                    == crate::schema::with_pso_struct(s, w, line)
                &&& w[0] == "PE"@ ==> crate::schema::with_line(s, text, line)
                    == crate::schema::with_pso_enum(s, w, line)
            }
        }),
{
    reveal_strlit("M");
    reveal_strlit("ME");
    reveal_strlit("P");
    reveal_strlit("PE");
    assert("M"@[0] == 'M' && "ME"@[0] == 'M' && "P"@[0] == 'P' && "PE"@[0] == 'P');
    assert("M"@.len() == 1 && "ME"@.len() == 2 && "P"@.len() == 1 && "PE"@.len() == 2);
}

} // verus!
