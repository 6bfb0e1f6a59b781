//! What numbers, names and bytes are worth, whatever holds them.

use vstd::prelude::*;

use crate::coerce::Floats;
use crate::rbf::{RbfValueView, RbfView};
use crate::value::{ArrayView, ValueView};

verus! {

// ─── numbers ─────────────────────────────────────────────────────────────────

/// A number is the same number in every width that holds it.
pub proof fn law_numbers_keep_their_value(n: int, floats: Floats)
    ensures
        i8::MIN <= n <= i8::MAX ==> crate::coerce::as_integer(ValueView::I8(n as i8), floats)
            == Some(n as i64),
        u8::MIN <= n <= u8::MAX ==> crate::coerce::as_integer(ValueView::U8(n as u8), floats)
            == Some(n as i64),
        i16::MIN <= n <= i16::MAX ==> crate::coerce::as_integer(ValueView::I16(n as i16), floats)
            == Some(n as i64),
        u16::MIN <= n <= u16::MAX ==> crate::coerce::as_integer(ValueView::U16(n as u16), floats)
            == Some(n as i64),
        i32::MIN <= n <= i32::MAX ==> crate::coerce::as_integer(ValueView::I32(n as i32), floats)
            == Some(n as i64),
        u32::MIN <= n <= u32::MAX ==> crate::coerce::as_integer(ValueView::U32(n as u32), floats)
            == Some(n as i64),
        u32::MIN <= n <= u32::MAX ==> crate::coerce::as_integer(ValueView::Hash(n as u32), floats)
            == Some(n as i64),
        i64::MIN <= n <= i64::MAX ==> crate::coerce::as_integer(ValueView::I64(n as i64), floats)
            == Some(n as i64),
        0 <= n <= i64::MAX ==> crate::coerce::as_integer(ValueView::U64(n as u64), floats) == Some(
            n as i64,
        ),
        -0x100_0000 < n < 0x100_0000 ==> crate::coerce::as_integer(
            ValueView::F32(crate::single::from_integer(n)),
            floats,
        ) == Some(n as i64),
        i64::MIN <= n <= i64::MAX ==> crate::coerce::as_integer(
            ValueView::Str(crate::text::signed_decimal(n)),
            floats,
        ) == Some(n as i64),
        i32::MIN <= n <= i32::MAX ==> crate::coerce::as_single(ValueView::I32(n as i32), floats)
            == Some(crate::single::from_integer(n)),
{
    if -0x100_0000 < n < 0x100_0000 {
        crate::single::law_small_numbers_survive(n);
    }
    if i64::MIN <= n <= i64::MAX {
        lemma_decimal_text(n as i64, floats);
    }
}

proof fn lemma_decimal_text(n: i64, floats: Floats)
    ensures
        crate::coerce::as_integer(ValueView::Str(crate::text::signed_decimal(n as int)), floats)
            == Some(n),
{
    let s = crate::text::signed_decimal(n as int);
    let m = if n < 0 {
        (-(n as int)) as nat
    } else {
        n as nat
    };
    let d = crate::text::decimal(m);
    crate::xml_laws::lemma_decimal_digits(m);
    crate::schema_laws::lemma_number_word(n);
    reveal_strlit("true");
    reveal_strlit("false");
    reveal_strlit("0x");
    reveal_strlit("0X");
    assert("true"@[0] == 't' && "false"@[0] == 'f');
    assert("0x"@[1] == 'x' && "0X"@[1] == 'X' && "0x"@.len() == 2 && "0X"@.len() == 2);
    assert('0' <= d[0] <= '9' && '0' <= d[d.len() - 1] <= '9');
    if n < 0 {
        assert(s[0] == '-' && s[s.len() - 1] == d[d.len() - 1]);
        assert(s[1] == d[0]);
    } else {
        assert(s == d);
        if s.len() > 1 {
            assert('0' <= s[1] <= '9');
        }
    }
    crate::xml_laws::lemma_trimmed(s);
    let low = crate::chars::lowered(s);
    assert(low.len() == s.len());
    assert(low[0] == crate::chars::lower(s[0]));
    assert(!crate::chars::starts(s, "0x"@)) by {
        if crate::chars::starts(s, "0x"@) {
            assert(s.take(2)[1] == s[1]);
        }
    }
    assert(!crate::chars::starts(s, "0X"@)) by {
        if crate::chars::starts(s, "0X"@) {
            assert(s.take(2)[1] == s[1]);
        }
    }
}

// ─── names ───────────────────────────────────────────────────────────────────

/// `0x` or `hash_` and eight hexadecimal digits spell a hash out.
pub proof fn law_hashes_are_spelled_out(h: u32)
    ensures
        crate::coerce::text_hash("hash_"@ + crate::text::hex(h as nat, 8)) == h,
        crate::coerce::text_hash("0x"@ + crate::text::hex(h as nat, 8)) == h,
        crate::coerce::text_hash("0X"@ + crate::text::hex(h as nat, 8)) == h,
{
    let d = crate::text::hex(h as nat, 8);
    crate::schema_laws::lemma_hex_digits(h as nat, 8);
    crate::schema_laws::lemma_hash_word(h);
    reveal_strlit("hash_");
    reveal_strlit("0x");
    reveal_strlit("0X");
    assert("hash_"@[0] == 'h' && "hash_"@.len() == 5);
    assert("0x"@[0] == '0' && "0x"@[1] == 'x' && "0x"@.len() == 2);
    assert("0X"@[0] == '0' && "0X"@[1] == 'X' && "0X"@.len() == 2);
    assert('0' <= d[7] <= '9' || 'A' <= d[7] <= 'F');
    let a = "hash_"@ + d;
    let b = "0x"@ + d;
    let c = "0X"@ + d;
    assert(a[12] == d[7] && b[9] == d[7] && c[9] == d[7]);
    crate::xml_laws::lemma_trimmed(a);
    crate::xml_laws::lemma_trimmed(b);
    crate::xml_laws::lemma_trimmed(c);
    assert(a.skip(5) =~= d);
    assert(b.skip(2) =~= d);
    assert(c.skip(2) =~= d);
    assert(a.take(5) =~= "hash_"@);
    assert(b.take(2) =~= "0x"@);
    assert(c.take(2) =~= "0X"@);
    assert(b.len() >= 5 ==> b.take(5)[0] == b[0]);
    assert(c.len() >= 5 ==> c.take(5)[0] == c[0]);
    assert(c.take(2)[1] == c[1]);
    assert(a.take(2)[0] == a[0]);
}

/// A hash is the same hash as a number of any width that holds its bits, and
/// as the placeholder that stands for it.
pub proof fn law_hashes_of_every_kind(h: u32)
    ensures
        crate::coerce::as_hash(ValueView::Hash(h)) == Some(h),
        crate::coerce::as_hash(ValueView::U32(h)) == Some(h),
        crate::coerce::as_hash(ValueView::I32(h as i32)) == Some(h),
        crate::coerce::as_hash(ValueView::I64(h as i64)) == Some(h),
        crate::coerce::as_hash(ValueView::I64((h as i32) as i64)) == Some(h),
        crate::coerce::as_hash(ValueView::U64(h as u64)) == Some(h),
        h != 0 ==> crate::coerce::as_hash(ValueView::Str(crate::names::placeholder(h))) == Some(h),
        crate::coerce::as_hash(ValueView::Str(Seq::empty())) == Some(0u32),
{
    assert((h as i32) as u32 == h) by (bit_vector);
    assert(((h as i32) as i64) as u32 == h) by (bit_vector);
    if h != 0 {
        law_hashes_are_spelled_out(h);
    }
    let e = Seq::<char>::empty();
    assert(crate::chars::trimmed(e) =~= e);
}

proof fn lemma_member_of(members: Seq<(u32, i32)>, name: u32, k: int, i: int)
    requires
        0 <= i <= k < members.len(),
        members[k].0 == name,
        forall|j: int| 0 <= j < k ==> (#[trigger] members[j]).0 != name,
    ensures
        crate::coerce::member_of(members, name, i) == Some(members[k].1),
    decreases k - i,
{
    if i < k {
        lemma_member_of(members, name, k, i + 1);
    }
}

/// A name is worth the number of the first member that has its hash, whether
/// the name is given as text or by its hash.
pub proof fn law_enum_names_are_looked_up(
    members: Seq<(u32, i32)>,
    k: int,
    text: Seq<char>,
    floats: Floats,
)
    requires
        0 <= k < members.len(),
        forall|j: int| 0 <= j < k ==> (#[trigger] members[j]).0 != members[k].0,
    ensures
        crate::coerce::as_enum(ValueView::Hash(members[k].0), members, floats) == Some(
            members[k].1,
        ),
        crate::chars::trimmed(text).len() > 0 && crate::coerce::text_integer(
            crate::chars::trimmed(text),
            floats,
        ) is None && crate::coerce::text_hash(crate::chars::trimmed(text)) == members[k].0
            ==> crate::coerce::as_enum(ValueView::Str(text), members, floats) == Some(
            members[k].1,
        ),
{
    lemma_member_of(members, members[k].0, k, 0);
}

// ─── flags ───────────────────────────────────────────────────────────────────

/// Whether bit `i` of a word is set.
pub open spec fn bit_set(word: u32, i: u32) -> bool {
    (word >> i) & 1 == 1
}

/// Member names set the bits that their numbers count, and no others.
pub proof fn law_names_set_their_bits(
    names: Seq<Seq<char>>,
    members: Seq<(u32, i32)>,
    k: nat,
    i: u32,
)
    requires
        i < 32,
        forall|j: int|
            0 <= j < k ==> {
                let m = crate::coerce::member_of(
                    members,
                    crate::coerce::text_hash(#[trigger] names[j]),
                    0,
                );
                m is Some && 0 <= m->0 < 32
            },
    ensures
        ({
            let bits = crate::coerce::named_bits(names, members, k);
            bits is Some && (bit_set(bits->0, i) <==> exists|j: int|
                0 <= j < k && crate::coerce::member_of(
                    members,
                    crate::coerce::text_hash(#[trigger] names[j]),
                    0,
                ) == Some(i as i32))
        }),
    decreases k,
{
    if k == 0 {
        assert(!bit_set(0, i)) by (bit_vector);
    } else {
        law_names_set_their_bits(names, members, (k - 1) as nat, i);
        let before = crate::coerce::named_bits(names, members, (k - 1) as nat)->0;
        let m = crate::coerce::member_of(members, crate::coerce::text_hash(names[k - 1]), 0)->0;
        let b = (m & 31) as u32;
        assert(m & 31 == m) by (bit_vector)
            requires
                0 <= m < 32,
        ;
        assert(bit_set(before | (1u32 << b), i) <==> bit_set(before, i) || b == i) by (bit_vector)
            requires
                i < 32,
                b < 32,
        ;
        assert(crate::coerce::named_bits(names, members, k) == Some(before | (1u32 << b)));
        if bit_set(before, i) {
            let j = choose|j: int|
                0 <= j < k - 1 && crate::coerce::member_of(
                    members,
                    crate::coerce::text_hash(#[trigger] names[j]),
                    0,
                ) == Some(i as i32);
            assert(0 <= j < k && crate::coerce::member_of(
                members,
                crate::coerce::text_hash(names[j]),
                0,
            ) == Some(i as i32));
        }
    }
}

/// A list of flag sets has the bits of its items, and no others.
pub proof fn law_lists_join_their_flags(
    items: Seq<ValueView>,
    members: Seq<(u32, i32)>,
    floats: Floats,
    k: nat,
    i: u32,
)
    requires
        i < 32,
        k <= items.len(),
        forall|j: int|
            0 <= j < k ==> crate::coerce::as_flags(#[trigger] items[j], members, floats) is Some,
    ensures
        ({
            let bits = crate::coerce::listed_flags(items, members, floats, k);
            bits is Some && (bit_set(bits->0, i) <==> exists|j: int|
                0 <= j < k && bit_set(
                    crate::coerce::as_flags(#[trigger] items[j], members, floats)->0,
                    i,
                ))
        }),
    decreases k,
{
    if k == 0 {
        assert(!bit_set(0, i)) by (bit_vector);
    } else {
        law_lists_join_their_flags(items, members, floats, (k - 1) as nat, i);
        let a = crate::coerce::listed_flags(items, members, floats, (k - 1) as nat)->0;
        let b = crate::coerce::as_flags(items[k - 1], members, floats)->0;
        assert(bit_set(a | b, i) <==> bit_set(a, i) || bit_set(b, i)) by (bit_vector);
        if bit_set(a, i) {
            let j = choose|j: int|
                0 <= j < k - 1 && bit_set(
                    crate::coerce::as_flags(#[trigger] items[j], members, floats)->0,
                    i,
                );
            assert(0 <= j < k && bit_set(
                crate::coerce::as_flags(items[j], members, floats)->0,
                i,
            ));
        }
    }
}

/// A flag set given as a list, as the set itself or as a number has the same
/// bits.
pub proof fn law_flags_of_every_kind(
    bits: u32,
    arr: ArrayView,
    members: Seq<(u32, i32)>,
    floats: Floats,
)
    ensures
        crate::coerce::as_flags(ValueView::U32(bits), members, floats) == Some(bits),
        crate::coerce::as_flags(ValueView::I32(bits as i32), members, floats) == Some(bits),
        crate::coerce::as_flags(
            ValueView::Str(crate::text::signed_decimal(bits as int)),
            members,
            floats,
        ) == Some(bits),
        crate::coerce::as_flags(ValueView::Array(arr), members, floats)
            == crate::coerce::listed_flags(arr.items, members, floats, arr.items.len()),
{
    assert(((bits as i32) as i64) as u32 == bits) by (bit_vector);
    lemma_decimal_text(bits as i64, floats);
    let s = crate::text::signed_decimal(bits as int);
    crate::xml_laws::lemma_decimal_digits(bits as nat);
    crate::xml_laws::lemma_trimmed(s);
    reveal_strlit("true");
    reveal_strlit("false");
    assert("true"@[0] == 't' && "false"@[0] == 'f');
    let low = crate::chars::lowered(s);
    assert(low[0] == crate::chars::lower(s[0]));
    assert('0' <= s[0] <= '9');
}

/// A value of an enum has the name of its first member with that number, none
/// where no member has it.
pub proof fn law_enum_values_have_names(entries: Seq<(u32, i32)>, value: i32, k: int)
    ensures
        0 <= k < entries.len() && entries[k].1 == value && (forall|j: int|
            0 <= j < k ==> (#[trigger] entries[j]).1 != value) ==> crate::value::first_name(
            entries,
            value,
        ) == Some(entries[k].0),
        (forall|j: int| 0 <= j < entries.len() ==> (#[trigger] entries[j]).1 != value)
            ==> crate::value::first_name(entries, value) is None,
    decreases entries.len(),
{
    if entries.len() > 0 {
        let rest = entries.skip(1);
        law_enum_values_have_names(rest, value, k - 1);
        if 0 < k < entries.len() && entries[k].1 == value && (forall|j: int|
            0 <= j < k ==> (#[trigger] entries[j]).1 != value) {
            assert(entries[0].1 != value);
            assert(rest[k - 1] == entries[k]);
            assert forall|j: int| 0 <= j < k - 1 implies (#[trigger] rest[j]).1 != value by {
                assert(rest[j] == entries[j + 1]);
            }
        }
        if forall|j: int| 0 <= j < entries.len() ==> (#[trigger] entries[j]).1 != value {
            assert(entries[0].1 != value);
            assert forall|j: int| 0 <= j < rest.len() implies (#[trigger] rest[j]).1 != value by {
                assert(rest[j] == entries[j + 1]);
            }
        }
    }
}

/// Whether a member of an enum counts a bit that is set.
pub open spec fn counts_set_bit(e: (u32, i32), bits: u32) -> bool {
    0 <= e.1 < 32 && bit_set(bits, e.1 as u32)
}

/// Whether a name is that of a member that counts a bit that is set.
pub open spec fn names_set_bit(entries: Seq<(u32, i32)>, bits: u32, name: u32) -> bool {
    exists|k: int|
        0 <= k < entries.len() && counts_set_bit(#[trigger] entries[k], bits) && entries[k].0
            == name
}

/// A set of flags has the names of the members that count its bits, and no
/// others.
pub proof fn law_flags_have_names(entries: Seq<(u32, i32)>, bits: u32)
    ensures
        forall|k: int|
            0 <= k < entries.len() && counts_set_bit(#[trigger] entries[k], bits)
                ==> crate::value::flag_names(entries, bits).contains(entries[k].0),
        forall|i: int|
            0 <= i < crate::value::flag_names(entries, bits).len() ==> names_set_bit(
                entries,
                bits,
                #[trigger] crate::value::flag_names(entries, bits)[i],
            ),
    decreases entries.len(),
{
    if entries.len() > 0 {
        let n = entries.len() - 1;
        let before = entries.drop_last();
        let had = crate::value::flag_names(before, bits);
        let now = crate::value::flag_names(entries, bits);
        law_flags_have_names(before, bits);
        let v = entries[n].1;
        let w = v as u32;
        if 0 <= v < 32 {
            assert(bit_set(bits, w) == (bits & (1u32 << w) != 0)) by (bit_vector)
                requires
                    w < 32,
            ;
        }
        assert(crate::value::bit_set(bits, v) == counts_set_bit(entries[n], bits));
        assert forall|k: int|
            0 <= k < entries.len() && counts_set_bit(
                #[trigger] entries[k],
                bits,
            ) implies now.contains(entries[k].0) by {
            if k < n {
                assert(before[k] == entries[k]);
                let i = choose|i: int| 0 <= i < had.len() && had[i] == entries[k].0;
                assert(now[i] == had[i]);
            } else {
                assert(now[had.len() as int] == entries[n].0);
            }
        }
        assert forall|i: int| 0 <= i < now.len() implies names_set_bit(
            entries,
            bits,
            #[trigger] now[i],
        ) by {
            if i < had.len() {
                assert(now[i] == had[i]);
                assert(names_set_bit(before, bits, had[i]));
                let k = choose|k: int|
                    0 <= k < before.len() && counts_set_bit(#[trigger] before[k], bits)
                        && before[k].0 == had[i];
                assert(before[k] == entries[k]);
            } else {
                assert(counts_set_bit(entries[n], bits) && entries[n].0 == now[i]);
            }
        }
    }
}

// ─── bytes ───────────────────────────────────────────────────────────────────

proof fn lemma_hex_text(b: Seq<u8>, n: nat)
    requires
        n <= b.len(),
    ensures
        crate::json::hex_text(b, n).len() == 2 * n,
        forall|i: int|
            0 <= i < 2 * n ==> {
                let c = #[trigger] crate::json::hex_text(b, n)[i];
                '0' <= c <= '9' || 'A' <= c <= 'F'
            },
    decreases n,
{
    if n > 0 {
        lemma_hex_text(b, (n - 1) as nat);
        let before = crate::json::hex_text(b, (n - 1) as nat);
        let d = crate::text::hex(b[n - 1] as nat, 2);
        crate::schema_laws::lemma_hex_digits(b[n - 1] as nat, 2);
        let s = crate::json::hex_text(b, n);
        assert forall|i: int| 0 <= i < 2 * n implies {
            let c = #[trigger] s[i];
            '0' <= c <= '9' || 'A' <= c <= 'F'
        } by {
            if i < 2 * (n - 1) {
                assert(s[i] == before[i]);
            } else {
                assert(s[i] == d[i - 2 * (n - 1)]);
            }
        }
    }
}

proof fn lemma_no_space(s: Seq<char>)
    requires
        forall|i: int| 0 <= i < s.len() ==> !crate::chars::is_space(#[trigger] s[i]),
    ensures
        crate::coerce::without_space(s) == s,
    decreases s.len(),
{
    if s.len() > 0 {
        assert forall|i: int| 0 <= i < s.len() - 1 implies !crate::chars::is_space(
            #[trigger] s.drop_last()[i],
        ) by {
            assert(s.drop_last()[i] == s[i]);
        }
        lemma_no_space(s.drop_last());
        assert(!crate::chars::is_space(s[s.len() - 1]));
        assert(s.drop_last().push(s.last()) =~= s);
    }
}

proof fn lemma_paired(b: Seq<u8>, s: Seq<char>, k: nat)
    requires
        k <= b.len(),
        s.len() >= 2 * k,
        s.take(2 * k as int) == crate::json::hex_text(b, k),
    ensures
        crate::coerce::paired_bytes(s, k) == Some(b.take(k as int)),
    decreases k,
{
    if k > 0 {
        let j = (k - 1) as nat;
        let before = crate::json::hex_text(b, j);
        let d = crate::text::hex(b[j as int] as nat, 2);
        lemma_hex_text(b, j);
        crate::schema_laws::lemma_hex_digits(b[j as int] as nat, 2);
        assert(s.take(2 * j as int) =~= before) by {
            assert(s.take(2 * k as int).take(2 * j as int) =~= s.take(2 * j as int));
            assert((before + d).take(2 * j as int) =~= before);
        }
        lemma_paired(b, s, j);
        assert(s.subrange(2 * (k - 1), 2 * (k as int)) =~= d) by {
            assert(s.take(2 * k as int).subrange(2 * (k - 1), 2 * (k as int)) =~= s.subrange(
                2 * (k - 1),
                2 * (k as int),
            ));
            assert((before + d).subrange(2 * (k - 1), 2 * (k as int)) =~= d);
        }
        lemma_byte_digits(b[j as int]);
        assert(b.take(k as int) =~= b.take(j as int).push(b[j as int]));
    } else {
        assert(b.take(0) =~= Seq::empty());
    }
}

pub proof fn lemma_byte_digits(b: u8)
    ensures
        crate::chars::unsigned(crate::text::hex(b as nat, 2), true, 255) == Some(b as int),
{
    reveal_with_fuel(crate::text::pow16, 3);
    crate::schema_laws::lemma_hex_digits(b as nat, 2);
    crate::text::law_hex_round_trip(b as nat, 2);
    assert(crate::text::hex(b as nat, 2)[0] != '+');
}

proof fn lemma_listed(b: Seq<u8>, items: Seq<ValueView>, k: nat, floats: Floats)
    requires
        k <= b.len() == items.len(),
        forall|i: int| 0 <= i < b.len() ==> #[trigger] items[i] == ValueView::U8(b[i]),
    ensures
        crate::coerce::listed_bytes(items, k, floats) == Some(b.take(k as int)),
    decreases k,
{
    if k > 0 {
        lemma_listed(b, items, (k - 1) as nat, floats);
        assert(items[k - 1] == ValueView::U8(b[k - 1]));
        let x = b[k - 1];
        assert((x as i64) as u8 == x) by (bit_vector);
        assert(b.take(k as int) =~= b.take(k - 1).push(b[k - 1]));
    } else {
        assert(b.take(0) =~= Seq::empty());
    }
}

/// Bytes are the same bytes as the hexadecimal text that a dump writes of
/// them, and as a list of small integers.
pub proof fn law_bytes_of_every_kind(b: Seq<u8>, floats: Floats)
    ensures
        crate::coerce::as_bytes(ValueView::Bytes(b), floats) == Some(b),
        crate::coerce::as_bytes(ValueView::Str(crate::json::hex_text(b, b.len())), floats) == Some(
            b,
        ),
        crate::coerce::as_bytes(
            ValueView::Array(
                ArrayView {
                    item_type: None,
                    typed_items: false,
                    items: Seq::new(b.len(), |i: int| ValueView::U8(b[i])),
                },
            ),
            floats,
        ) == Some(b),
{
    let s = crate::json::hex_text(b, b.len());
    lemma_hex_text(b, b.len());
    assert forall|i: int| 0 <= i < s.len() implies !crate::chars::is_space(#[trigger] s[i]) by {
    }
    lemma_no_space(s);
    assert(s.take(2 * b.len() as int) =~= s);
    lemma_paired(b, s, b.len());
    assert(b.take(b.len() as int) =~= b);
    let items = Seq::new(b.len(), |i: int| ValueView::U8(b[i]));
    lemma_listed(b, items, b.len(), floats);
}

// ─── RBF trees ───────────────────────────────────────────────────────────────

proof fn lemma_lifted_member(s: Seq<(Seq<char>, RbfValueView)>, i: int)
    requires
        0 <= i < s.len(),
    ensures
        crate::rbf::lifted_members(s).len() == s.len(),
        crate::rbf::lifted_members(s)[i] == (
            crate::hash::name_hash(s[i].0),
            crate::rbf::lifted_value(s[i].1),
        ),
    decreases s.len(),
{
    let t = s.drop_last();
    if i < s.len() - 1 {
        lemma_lifted_member(t, i);
        assert(t[i] == s[i]);
    } else if t.len() > 0 {
        lemma_lifted_member(t, 0);
    } else {
        assert(crate::rbf::lifted_members(t) =~= Seq::empty());
    }
}

/// A lifted structure has its attributes and then its children as members,
/// each under the hash of its name; where it has no attributes and every child
/// is called `Item` it is the list of their values instead.
pub proof fn law_structures_are_lifted(s: RbfView, i: int)
    ensures
        ({
            let all = s.attributes + s.children;
            let list = s.attributes.len() == 0 && s.children.len() > 0 && forall|j: int|
                0 <= j < s.children.len() ==> (#[trigger] s.children[j]).0 == seq![
                    'I',
                    't',
                    'e',
                    'm',
                ];
            match crate::rbf::lifted(s) {
                ValueView::Array(a) => list && a.item_type is None && a.items.len() == all.len()
                    && (0 <= i < all.len() ==> a.items[i] == crate::rbf::lifted_value(all[i].1)),
                ValueView::Struct(t) => !list && t.type_hash == crate::hash::name_hash(s.name)
                    && t.fields.len() == all.len() && (0 <= i < all.len() ==> t.fields[i] == (
                    crate::hash::name_hash(all[i].0),
                    crate::rbf::lifted_value(all[i].1),
                )),
                _ => false,
            }
        }),
{
    reveal_strlit("Item");
    assert("Item"@ =~= seq!['I', 't', 'e', 'm']);
    let n = s.attributes.len();
    if n > 0 {
        lemma_lifted_member(s.attributes, 0);
    }
    if s.children.len() > 0 {
        lemma_lifted_member(s.children, 0);
    }
    if 0 <= i < n {
        lemma_lifted_member(s.attributes, i);
    } else if n <= i < n + s.children.len() {
        lemma_lifted_member(s.children, i - n);
    }
    if crate::rbf::is_list(s) {
        assert forall|j: int| 0 <= j < s.children.len() implies (#[trigger] s.children[j]).0
            == seq!['I', 't', 'e', 'm'] by {
        }
    }
}

/// A lifted value is what the file holds: its bits, its bytes, its text.
pub proof fn law_values_are_lifted(n: u32, b: bool, bytes: Seq<u8>, text: Seq<char>)
    ensures
        crate::coerce::as_hash(crate::rbf::lifted_value(RbfValueView::Uint(n))) == Some(n),
        crate::coerce::as_integer(crate::rbf::lifted_value(RbfValueView::Bool(b)), Seq::empty())
            == Some(if b { 1i64 } else { 0i64 }),
        crate::coerce::as_single(crate::rbf::lifted_value(RbfValueView::Float(n)), Seq::empty())
            == Some(n),
        crate::coerce::as_bytes(crate::rbf::lifted_value(RbfValueView::Bytes(bytes)), Seq::empty())
            == Some(bytes),
        crate::coerce::as_text(crate::rbf::lifted_value(RbfValueView::Str(text))) == Some(text),
{
}

} // verus!
