//! How texts come apart into words, and what tables of words hold.

use vstd::prelude::*;

use crate::chars::{gap_end, is_gap, is_space, space_end, text_end, trimmed, word_end, words, words_from};
use crate::value::{ArrayView, ValueView};
use crate::xml::XmlNodeView;

verus! {

/// Whether a text is one word.
pub open spec fn is_word(w: Seq<char>, comma: bool) -> bool {
    &&& w.len() > 0
    &&& forall|i: int| 0 <= i < w.len() ==> !is_gap(#[trigger] w[i], comma)
}

/// Whether a text is white space alone.
pub open spec fn is_blank(s: Seq<char>) -> bool {
    forall|i: int| 0 <= i < s.len() ==> is_space(#[trigger] s[i])
}

/// White space parts words, a comma where commas count; letters, digits and
/// the signs of a number do not.
pub proof fn law_what_parts_words(c: char, comma: bool)
    ensures
        is_gap(' ', comma) && is_gap('\n', comma) && is_gap('\t', comma) && is_gap('\r', comma),
        is_gap(',', comma) == comma,
        'a' <= c <= 'z' || 'A' <= c <= 'Z' || '0' <= c <= '9' || c == '-' || c == '+' || c == '.'
            || c == '_' ==> !is_gap(c, comma),
{
}

// ─── parting ─────────────────────────────────────────────────────────────────

proof fn lemma_end_bounds(s: Seq<char>, i: int, comma: bool)
    requires
        0 <= i <= s.len(),
    ensures
        i <= gap_end(s, i, comma) <= s.len(),
        i <= word_end(s, i, comma) <= s.len(),
        i < s.len() && !is_gap(s[i], comma) ==> word_end(s, i, comma) > i,
        gap_end(s, i, comma) < s.len() ==> !is_gap(s[gap_end(s, i, comma)], comma),
        word_end(s, i, comma) < s.len() ==> is_gap(s[word_end(s, i, comma)], comma),
    decreases s.len() - i,
{
    if i < s.len() {
        lemma_end_bounds(s, i + 1, comma);
    }
}

proof fn lemma_ends_shift(front: Seq<char>, s: Seq<char>, i: int, comma: bool)
    requires
        0 <= i <= s.len(),
    ensures
        gap_end(front + s, front.len() + i, comma) == front.len() + gap_end(s, i, comma),
        word_end(front + s, front.len() + i, comma) == front.len() + word_end(s, i, comma),
    decreases s.len() - i,
{
    if i < s.len() {
        assert((front + s)[front.len() + i] == s[i]);
        lemma_ends_shift(front, s, i + 1, comma);
    }
}

proof fn lemma_words_shift(front: Seq<char>, s: Seq<char>, i: int, comma: bool)
    requires
        0 <= i <= s.len(),
    ensures
        words_from(front + s, front.len() + i, comma) == words_from(s, i, comma),
    decreases s.len() - i,
{
    let all = front + s;
    let a = gap_end(s, i, comma);
    lemma_end_bounds(s, i, comma);
    lemma_end_bounds(s, a, comma);
    lemma_ends_shift(front, s, i, comma);
    lemma_ends_shift(front, s, a, comma);
    let b = word_end(s, a, comma);
    if a < s.len() {
        lemma_words_shift(front, s, b, comma);
        assert(all.subrange(front.len() + a, front.len() + b) =~= s.subrange(a, b));
    }
}

/// Ends that fall inside `s` stay where they are when more text follows.
proof fn lemma_ends_before(s: Seq<char>, more: Seq<char>, i: int, comma: bool)
    requires
        0 <= i <= s.len(),
    ensures
        gap_end(s, i, comma) < s.len() ==> gap_end(s + more, i, comma) == gap_end(s, i, comma),
        word_end(s, i, comma) < s.len() ==> word_end(s + more, i, comma) == word_end(s, i, comma),
        gap_end(s, i, comma) == s.len() ==> gap_end(s + more, i, comma) == gap_end(
            s + more,
            s.len() as int,
            comma,
        ),
        word_end(s, i, comma) == s.len() ==> word_end(s + more, i, comma) == word_end(
            s + more,
            s.len() as int,
            comma,
        ),
    decreases s.len() - i,
{
    if i < s.len() {
        assert((s + more)[i] == s[i]);
        lemma_ends_before(s, more, i + 1, comma);
    }
}

proof fn lemma_words_join_from(a: Seq<char>, b: Seq<char>, i: int, comma: bool)
    requires
        0 <= i <= a.len(),
        a.len() == 0 || is_gap(a[a.len() - 1], comma),
    ensures
        words_from(a + b, i, comma) == words_from(a, i, comma) + words(b, comma),
    decreases a.len() - i,
{
    let all = a + b;
    let g = gap_end(a, i, comma);
    lemma_end_bounds(a, i, comma);
    lemma_ends_before(a, b, i, comma);
    if g == a.len() {
        lemma_end_bounds(all, i, comma);
        lemma_end_bounds(all, a.len() as int, comma);
        lemma_end_bounds(all, gap_end(all, i, comma), comma);
        assert(words_from(all, i, comma) == words_from(all, a.len() as int, comma));
        lemma_words_shift(a, b, 0, comma);
        assert(words_from(a, i, comma) =~= Seq::<Seq<char>>::empty());
        assert(words_from(all, i, comma) =~= words_from(a, i, comma) + words(b, comma));
    } else {
        lemma_end_bounds(a, g, comma);
        lemma_ends_before(a, b, g, comma);
        let e = word_end(a, g, comma);
        lemma_last_gap(a, g, comma);
        lemma_words_join_from(a, b, e, comma);
        lemma_end_bounds(all, i, comma);
        assert(all.subrange(g, e) =~= a.subrange(g, e));
        assert(words_from(all, i, comma) =~= words_from(a, i, comma) + words(b, comma));
    }
}

proof fn lemma_last_gap(a: Seq<char>, i: int, comma: bool)
    requires
        0 <= i < a.len(),
        is_gap(a[a.len() - 1], comma),
    ensures
        word_end(a, i, comma) < a.len(),
    decreases a.len() - i,
{
    if i < a.len() - 1 {
        lemma_last_gap(a, i + 1, comma);
    }
}

/// The words of two texts are those of the first and then those of the
/// second, where a gap lies between.
pub proof fn law_words_of_joined_texts(a: Seq<char>, b: Seq<char>, comma: bool)
    requires
        a.len() == 0 || is_gap(a[a.len() - 1], comma),
    ensures
        words(a + b, comma) == words(a, comma) + words(b, comma),
{
    lemma_words_join_from(a, b, 0, comma);
}

proof fn lemma_one_word(w: Seq<char>, i: int, comma: bool)
    requires
        is_word(w, comma),
        0 <= i <= w.len(),
    ensures
        word_end(w, i, comma) == w.len(),
    decreases w.len() - i,
{
    if i < w.len() {
        assert(!is_gap(w[i], comma));
        lemma_one_word(w, i + 1, comma);
    }
}

/// A text without gaps is one word; a gap before a text, behind it or alone
/// adds none.
pub proof fn law_words_are_the_longest_runs(w: Seq<char>, g: char, s: Seq<char>, comma: bool)
    requires
        is_word(w, comma),
        is_gap(g, comma),
    ensures
        words(w, comma) == seq![w],
        words(w.push(g), comma) == seq![w],
        words(seq![g] + s, comma) == words(s, comma),
        words(w.push(g) + s, comma) == seq![w] + words(s, comma),
        words(Seq::empty(), comma) == Seq::<Seq<char>>::empty(),
{
    lemma_one_word(w, 0, comma);
    assert(!is_gap(w[0], comma));
    assert(w.subrange(0, w.len() as int) =~= w);
    assert(words_from(w, w.len() as int, comma) =~= Seq::<Seq<char>>::empty());
    assert(words(w, comma) =~= seq![w]);
    let t = w.push(g);
    assert(t =~= w + seq![g]);
    lemma_ends_before(w, seq![g], 0, comma);
    assert(t[0] == w[0]);
    assert(t[w.len() as int] == g);
    assert(word_end(t, w.len() as int, comma) == w.len());
    assert(word_end(t, 0, comma) == w.len());
    assert(gap_end(t, t.len() as int, comma) == t.len());
    assert(gap_end(t, w.len() as int, comma) == t.len());
    assert(words_from(t, w.len() as int, comma) =~= Seq::<Seq<char>>::empty());
    assert(t.subrange(0, w.len() as int) =~= w);
    assert(words(t, comma) =~= seq![w]);
    law_words_of_joined_texts(t, s, comma);
    let one = seq![g];
    assert(gap_end(one, 1, comma) == 1);
    assert(gap_end(one, 0, comma) == 1);
    assert(words(one, comma) =~= Seq::<Seq<char>>::empty());
    law_words_of_joined_texts(one, s, comma);
    assert(words(one, comma) + words(s, comma) =~= words(s, comma));
    assert(words(Seq::empty(), comma) =~= Seq::<Seq<char>>::empty());
}

// ─── trimming ────────────────────────────────────────────────────────────────

proof fn lemma_lead(lead: Seq<char>, s: Seq<char>, i: int)
    requires
        is_blank(lead),
        0 <= i <= lead.len(),
        s.len() == 0 || !is_space(s[0]),
    ensures
        space_end(lead + s, i) == lead.len(),
    decreases lead.len() - i,
{
    if i < lead.len() {
        assert((lead + s)[i] == lead[i]);
        lemma_lead(lead, s, i + 1);
    } else if s.len() > 0 {
        assert((lead + s)[i] == s[0]);
    }
}

proof fn lemma_tail(s: Seq<char>, tail: Seq<char>, j: int)
    requires
        is_blank(tail),
        0 <= j <= tail.len(),
        s.len() > 0,
        !is_space(s[s.len() - 1]),
    ensures
        text_end(s + tail, s.len() + j) == s.len(),
    decreases j,
{
    if j > 0 {
        assert((s + tail)[s.len() + j - 1] == tail[j - 1]);
        lemma_tail(s, tail, j - 1);
    } else {
        assert((s + tail)[s.len() - 1] == s[s.len() - 1]);
    }
}

/// Trimming takes the white space at both ends away and nothing else.
pub proof fn law_trimming(lead: Seq<char>, s: Seq<char>, tail: Seq<char>)
    requires
        is_blank(lead),
        is_blank(tail),
        s.len() > 0,
        !is_space(s[0]),
        !is_space(s[s.len() - 1]),
    ensures
        trimmed(lead + s + tail) == s,
        trimmed(lead) == Seq::<char>::empty(),
{
    let all = lead + s + tail;
    assert(all =~= lead + (s + tail));
    assert((s + tail)[0] == s[0]);
    lemma_lead(lead, s + tail, 0);
    assert((lead + s)[lead.len() + s.len() - 1] == s[s.len() - 1]);
    lemma_tail(lead + s, tail, tail.len() as int);
    assert(all.subrange(lead.len() as int, (lead.len() + s.len()) as int) =~= s);
    lemma_lead(lead, Seq::empty(), 0);
    assert(lead + Seq::<char>::empty() =~= lead);
    lemma_blank_end(lead, lead.len() as int);
}

proof fn lemma_blank_end(s: Seq<char>, j: int)
    requires
        is_blank(s),
        0 <= j <= s.len(),
    ensures
        text_end(s, j) == 0,
    decreases j,
{
    if j > 0 {
        assert(is_space(s[j - 1]));
        lemma_blank_end(s, j - 1);
    }
}

proof fn lemma_space_end(s: Seq<char>, i: int)
    requires
        0 <= i <= s.len(),
    ensures
        i <= space_end(s, i) <= s.len(),
        forall|k: int| i <= k < space_end(s, i) ==> is_space(#[trigger] s[k]),
    decreases s.len() - i,
{
    if i < s.len() && is_space(s[i]) {
        lemma_space_end(s, i + 1);
    }
}

proof fn lemma_text_end(s: Seq<char>, j: int)
    requires
        0 <= j <= s.len(),
    ensures
        0 <= text_end(s, j) <= j,
        forall|k: int| text_end(s, j) <= k < j ==> is_space(#[trigger] s[k]),
    decreases j,
{
    if j > 0 && is_space(s[j - 1]) {
        lemma_text_end(s, j - 1);
    }
}

proof fn lemma_blank_gap(s: Seq<char>, i: int, comma: bool)
    requires
        is_blank(s),
        0 <= i <= s.len(),
    ensures
        gap_end(s, i, comma) == s.len(),
    decreases s.len() - i,
{
    if i < s.len() {
        assert(is_space(s[i]));
        lemma_blank_gap(s, i + 1, comma);
    }
}

proof fn lemma_blank_words(s: Seq<char>, comma: bool)
    requires
        is_blank(s),
    ensures
        words(s, comma) == Seq::<Seq<char>>::empty(),
{
    lemma_blank_gap(s, 0, comma);
    assert(words(s, comma) =~= Seq::<Seq<char>>::empty());
}

proof fn lemma_words_before_blank(s: Seq<char>, tail: Seq<char>, i: int, comma: bool)
    requires
        is_blank(tail),
        0 <= i <= s.len(),
    ensures
        words_from(s + tail, i, comma) == words_from(s, i, comma),
    decreases s.len() - i,
{
    let all = s + tail;
    let g = gap_end(s, i, comma);
    lemma_end_bounds(s, i, comma);
    lemma_ends_before(s, tail, i, comma);
    lemma_ends_shift(s, tail, 0, comma);
    lemma_blank_gap(tail, 0, comma);
    if g == s.len() {
        assert(gap_end(all, i, comma) == all.len());
        assert(words_from(all, i, comma) =~= words_from(s, i, comma));
    } else {
        lemma_end_bounds(s, g, comma);
        lemma_ends_before(s, tail, g, comma);
        let e = word_end(s, g, comma);
        if e == s.len() {
            if tail.len() > 0 {
                assert(is_space(tail[0]));
            }
            assert(word_end(tail, 0, comma) == 0);
            assert(word_end(all, g, comma) == e);
        }
        lemma_words_before_blank(s, tail, e, comma);
        assert(all.subrange(g, e) =~= s.subrange(g, e));
        assert(words_from(all, i, comma) =~= words_from(s, i, comma));
    }
}

/// Trimming a text leaves its words.
pub proof fn law_trimming_leaves_words(s: Seq<char>, comma: bool)
    ensures
        words(trimmed(s), comma) == words(s, comma),
{
    let a = space_end(s, 0);
    let b = text_end(s, s.len() as int);
    lemma_space_end(s, 0);
    lemma_text_end(s, s.len() as int);
    if a >= b {
        assert(is_blank(s)) by {
            assert forall|i: int| 0 <= i < s.len() implies is_space(#[trigger] s[i]) by {
            }
        }
        lemma_blank_words(s, comma);
        lemma_blank_words(Seq::empty(), comma);
    } else {
        let lead = s.take(a);
        let mid = s.subrange(a, b);
        let tail = s.skip(b);
        assert(s =~= lead + (mid + tail));
        assert(is_blank(lead));
        assert(is_blank(tail));
        if a > 0 {
            assert(is_space(lead[a - 1]));
        }
        law_words_of_joined_texts(lead, mid + tail, comma);
        lemma_blank_words(lead, comma);
        lemma_words_before_blank(mid, tail, 0, comma);
        assert(words(lead, comma) + words(mid + tail, comma) =~= words(mid + tail, comma));
    }
}

// ─── tables ──────────────────────────────────────────────────────────────────

proof fn lemma_cell(lead: Seq<char>, cell: Seq<char>, gap: char)
    requires
        is_blank(lead),
        is_word(cell, false),
        is_space(gap),
    ensures
        words(lead + cell.push(gap), false) == seq![cell],
{
    if lead.len() > 0 {
        assert(is_space(lead[lead.len() - 1]));
    }
    law_words_of_joined_texts(lead, cell.push(gap), false);
    lemma_blank_words(lead, false);
    law_words_are_the_longest_runs(cell, gap, Seq::empty(), false);
    assert(Seq::<Seq<char>>::empty() + seq![cell] =~= seq![cell]);
}

/// Where the cell of one more row lies.
#[verifier::spinoff_prover]
proof fn lemma_row_step(
    pad: Seq<char>,
    cells: spec_fn(int) -> Seq<char>,
    total: nat,
    width: nat,
    m: nat,
) -> (r: (Seq<char>, char))
    requires
        is_blank(pad),
        width > 0,
    ensures
        is_blank(r.0),
        is_space(r.1),
        crate::xml::rows(pad, cells, total, width, m + 1) == crate::xml::rows(
            pad,
            cells,
            total,
            width,
            m,
        ) + (r.0 + cells(m as int).push(r.1)),
{
    let n = m + 1;
    let lead = if m % width == 0 {
        pad
    } else {
        Seq::empty()
    };
    let gap = if n % width == 0 || n == total {
        '\n'
    } else {
        ' '
    };
    reveal_strlit("\n");
    reveal_strlit(" ");
    assert("\n"@ =~= seq!['\n']);
    assert(" "@ =~= seq![' ']);
    let before = crate::xml::rows(pad, cells, total, width, m);
    assert(crate::xml::rows(pad, cells, total, width, n) =~= before + (lead + cells(
        m as int,
    ).push(gap)));
    (lead, gap)
}

proof fn lemma_one_more_cell(
    before: Seq<char>,
    lead: Seq<char>,
    cell: Seq<char>,
    gap: char,
    had: Seq<Seq<char>>,
)
    requires
        before.len() == 0 || is_gap(before[before.len() - 1], false),
        words(before, false) == had,
        is_blank(lead),
        is_word(cell, false),
        is_space(gap),
    ensures
        words(before + (lead + cell.push(gap)), false) == had.push(cell),
{
    law_words_of_joined_texts(before, lead + cell.push(gap), false);
    lemma_cell(lead, cell, gap);
    assert(had + seq![cell] =~= had.push(cell));
}

/// A table printed in rows comes apart into its cells, in order.
#[verifier::spinoff_prover]
#[verifier::rlimit(50)]
pub proof fn law_rows_hold_their_cells(
    pad: Seq<char>,
    cells: spec_fn(int) -> Seq<char>,
    total: nat,
    width: nat,
    n: nat,
)
    requires
        is_blank(pad),
        width > 0,
        forall|i: int| 0 <= i < n ==> is_word(#[trigger] cells(i), false),
    ensures
        words(crate::xml::rows(pad, cells, total, width, n), false) == Seq::new(n, cells),
    decreases n,
{
    if n == 0 {
        lemma_blank_words(Seq::empty(), false);
        assert(Seq::new(0, cells) =~= Seq::<Seq<char>>::empty());
    } else {
        let m = (n - 1) as nat;
        law_rows_hold_their_cells(pad, cells, total, width, m);
        lemma_rows_end(pad, cells, total, width, m);
        let before = crate::xml::rows(pad, cells, total, width, m);
        let (lead, gap) = lemma_row_step(pad, cells, total, width, m);
        lemma_one_more_cell(before, lead, cells(m as int), gap, Seq::new(m, cells));
        assert(Seq::new(m, cells).push(cells(m as int)) =~= Seq::new(n, cells));
    }
}

#[verifier::spinoff_prover]
proof fn lemma_rows_end(
    pad: Seq<char>,
    cells: spec_fn(int) -> Seq<char>,
    total: nat,
    width: nat,
    n: nat,
)
    ensures
        ({
            let t = crate::xml::rows(pad, cells, total, width, n);
            t.len() == 0 || is_gap(t[t.len() - 1], false)
        }),
{
    reveal_strlit("\n");
    reveal_strlit(" ");
    assert("\n"@ =~= seq!['\n']);
    assert(" "@ =~= seq![' ']);
}

proof fn lemma_table_words(
    pad: Seq<char>,
    cells: spec_fn(int) -> Seq<char>,
    width: nat,
    n: nat,
    tail: Seq<char>,
)
    requires
        is_blank(pad),
        is_blank(tail),
        width > 0,
        forall|i: int| 0 <= i < n ==> is_word(#[trigger] cells(i), false),
    ensures
        words(trimmed(seq!['\n'] + crate::xml::rows(pad, cells, n, width, n) + tail), false)
            == Seq::new(n, cells),
{
    let t = crate::xml::rows(pad, cells, n, width, n);
    let all = seq!['\n'] + t + tail;
    law_trimming_leaves_words(all, false);
    law_rows_hold_their_cells(pad, cells, n, width, n);
    lemma_words_before_blank(seq!['\n'] + t, tail, 0, false);
    assert(is_blank(seq!['\n']));
    law_words_of_joined_texts(seq!['\n'], t, false);
    lemma_blank_words(seq!['\n'], false);
    assert(Seq::<Seq<char>>::empty() + words(t, false) =~= words(t, false));
}

proof fn lemma_bytes_among(ws: Seq<Seq<char>>, b: Seq<u8>, n: nat)
    requires
        n <= ws.len() == b.len(),
        forall|i: int|
            0 <= i < b.len() ==> #[trigger] ws[i] == crate::text::hex(b[i] as nat, 2),
    ensures
        crate::xml::bytes_among(ws, n) == b.take(n as int),
    decreases n,
{
    if n > 0 {
        lemma_bytes_among(ws, b, (n - 1) as nat);
        assert(ws[n - 1] == crate::text::hex(b[n - 1] as nat, 2));
        crate::value_laws::lemma_byte_digits(b[n - 1]);
        assert(b.take(n as int) =~= b.take(n - 1).push(b[n - 1]));
    } else {
        assert(b.take(0) =~= Seq::empty());
    }
}

/// Bytes read back from the table that they are printed as.
pub proof fn law_byte_tables_survive_xml(
    n: XmlNodeView,
    b: Seq<u8>,
    pad: Seq<char>,
    tail: Seq<char>,
    width: nat,
    floats: crate::coerce::Floats,
)
    requires
        is_blank(pad),
        is_blank(tail),
        width > 0,
        crate::xml::attribute_of(n, "itemType"@) == Some("ByteArray"@),
        n.text == Some(
            seq!['\n'] + crate::xml::rows(
                pad,
                crate::xml::byte_cells(b),
                b.len(),
                width,
                b.len(),
            ) + tail,
        ),
    ensures
        crate::xml::leaf_value(n, floats) == ValueView::Bytes(b),
{
    let cells = crate::xml::byte_cells(b);
    assert forall|i: int| 0 <= i < b.len() implies is_word(#[trigger] cells(i), false) by {
        crate::schema_laws::lemma_hex_digits(b[i] as nat, 2);
    }
    lemma_table_words(pad, cells, width, b.len(), tail);
    let ws = Seq::new(b.len(), cells);
    lemma_bytes_among(ws, b, b.len());
    assert(b.take(b.len() as int) =~= b);
}

/// Whole numbers read back from the table that they are printed as, each as
/// the number that it is.
pub proof fn law_number_tables_survive_xml(
    n: XmlNodeView,
    items: Seq<ValueView>,
    pad: Seq<char>,
    tail: Seq<char>,
    width: nat,
    kind: Seq<char>,
    f: Seq<(u32, Seq<char>)>,
    floats: crate::coerce::Floats,
)
    requires
        is_blank(pad),
        is_blank(tail),
        width > 0,
        kind != "ByteArray"@,
        crate::xml::attribute_of(n, "itemType"@) == Some(kind),
        forall|i: int|
            0 <= i < items.len() ==> !(#[trigger] items[i] is F32) && crate::value::integer_of(
                items[i],
            ) is Some,
        n.text == Some(
            seq!['\n'] + crate::xml::rows(
                pad,
                crate::xml::number_cells(items, f),
                items.len(),
                width,
                items.len(),
            ) + tail,
        ),
    ensures
        crate::xml::leaf_value(n, floats) == ValueView::Array(
            ArrayView {
                item_type: None,
                typed_items: false,
                items: Seq::new(
                    items.len(),
                    |i: int|
                        crate::json::integer_value(crate::value::integer_of(items[i])->0),
                ),
            },
        ),
{
    let cells = crate::xml::number_cells(items, f);
    assert forall|i: int| 0 <= i < items.len() implies is_word(#[trigger] cells(i), false) by {
        assert(!(items[i] is F32));
        lemma_decimal_word(crate::value::integer_of(items[i])->0 as int);
    }
    lemma_table_words(pad, cells, width, items.len(), tail);
    let ws = Seq::new(items.len(), cells);
    let read = Seq::new(items.len(), |i: int| crate::xml::scalar_of(ws[i], floats));
    let want = Seq::new(
        items.len(),
        |i: int| crate::json::integer_value(crate::value::integer_of(items[i])->0),
    );
    assert forall|i: int| 0 <= i < items.len() implies read[i] == want[i] by {
        assert(!(items[i] is F32));
        assert(ws[i] == cells(i));
        crate::xml_laws::law_integers_read_back(crate::value::integer_of(items[i])->0, floats);
    }
    assert(read =~= want);
    let found = words(trimmed(n.text->0), false);
    assert(Seq::new(found.len(), |i: int| crate::xml::scalar_of(found[i], floats)) =~= read);
}

proof fn lemma_decimal_word(n: int)
    ensures
        is_word(crate::text::signed_decimal(n), false),
{
    let m = if n < 0 {
        (-n) as nat
    } else {
        n as nat
    };
    let d = crate::text::decimal(m);
    let s = crate::text::signed_decimal(n);
    crate::xml_laws::lemma_decimal_digits(m);
    assert forall|i: int| 0 <= i < s.len() implies !is_gap(#[trigger] s[i], false) by {
        if n < 0 && i > 0 {
            assert(s[i] == d[i - 1]);
        } else if n >= 0 {
            assert(s[i] == d[i]);
        }
    }
}

/// The names of a flag set are printed so that they part again, in order.
pub proof fn law_flag_names_part_again(hashes: Seq<u32>, names: Map<u32, Seq<char>>, n: nat)
    requires
        n <= hashes.len(),
        forall|i: int|
            0 <= i < n ==> is_word(crate::names::named(names, #[trigger] hashes[i]), true),
    ensures
        words(crate::xml::joined_names(hashes, names, n), true) == Seq::new(
            n,
            |i: int| crate::names::named(names, hashes[i]),
        ),
    decreases n,
{
    let want = Seq::new(n, |i: int| crate::names::named(names, hashes[i]));
    let t = crate::xml::joined_names(hashes, names, n);
    if n == 0 {
        lemma_blank_words(Seq::empty(), true);
        assert(words(t, true) =~= want);
    } else {
        let last = crate::names::named(names, hashes[n - 1]);
        law_words_are_the_longest_runs(last, ' ', Seq::empty(), true);
        if n == 1 {
            assert(words(t, true) =~= want);
        } else {
            let m = (n - 1) as nat;
            law_flag_names_part_again(hashes, names, m);
            reveal_strlit(", ");
            let before = crate::xml::joined_names(hashes, names, m);
            assert(t =~= (before + ", "@) + last);
            assert((before + ", "@)[before.len() as int + 1] == ' ');
            law_words_of_joined_texts(before + ", "@, last, true);
            lemma_words_before_comma(before);
            assert(words(t, true) =~= want);
        }
    }
}

proof fn lemma_words_before_comma(s: Seq<char>)
    ensures
        words(s + ", "@, true) == words(s, true),
{
    reveal_strlit(", ");
    assert(", "@ =~= seq![',', ' ']);
    lemma_words_before_gaps(s, seq![',', ' '], 0);
}

proof fn lemma_words_before_gaps(s: Seq<char>, tail: Seq<char>, i: int)
    requires
        tail == seq![',', ' '],
        0 <= i <= s.len(),
    ensures
        words_from(s + tail, i, true) == words_from(s, i, true),
    decreases s.len() - i,
{
    let all = s + tail;
    let g = gap_end(s, i, true);
    lemma_end_bounds(s, i, true);
    lemma_ends_before(s, tail, i, true);
    lemma_ends_shift(s, tail, 0, true);
    assert(gap_end(tail, 2, true) == 2);
    assert(gap_end(tail, 1, true) == 2);
    assert(gap_end(tail, 0, true) == 2);
    assert(word_end(tail, 0, true) == 0);
    if g == s.len() {
        assert(words_from(all, i, true) =~= words_from(s, i, true));
    } else {
        lemma_end_bounds(s, g, true);
        lemma_ends_before(s, tail, g, true);
        let e = word_end(s, g, true);
        lemma_words_before_gaps(s, tail, e);
        assert(all.subrange(g, e) =~= s.subrange(g, e));
        assert(words_from(all, i, true) =~= words_from(s, i, true));
    }
}

// ─── whole singles ───────────────────────────────────────────────────────────

/// A small whole number is printed as itself where it is held as a single, and
/// reads back as the same number.
pub proof fn law_whole_singles_are_printed_as_integers(
    n: int,
    f: Seq<(u32, Seq<char>)>,
    floats: crate::coerce::Floats,
)
    requires
        -0x100_0000 < n < 0x100_0000,
    ensures
        ({
            let text = crate::xml::float_text(crate::single::from_integer(n), f);
            &&& text == crate::text::signed_decimal(n)
            &&& crate::xml::scalar_of(text, floats) == crate::json::integer_value(n as i64)
        }),
{
    crate::single::law_small_numbers_survive(n);
    crate::xml_laws::law_integers_read_back(n as i64, floats);
}

// ─── empty lists and types of items ──────────────────────────────────────────

/// The members that only ever hold items.
pub open spec fn list_names() -> Seq<Seq<char>> {
    seq![
        "entities"@,
        "extensions"@,
        "archetypes"@,
        "rooms"@,
        "portals"@,
        "entitySets"@,
        "attachedObjects"@,
        "locations"@,
        "containerLods"@,
        "boxOccluders"@,
        "occludeModels"@,
        "physicsDictionaries"@,
        "timeCycleModifiers"@,
        "carGenerators"@,
        "instances"@,
        "corners"@,
        "MapDataGroups"@,
        "HDTxdBindingArray"@,
        "imapDependencies"@,
        "imapDependencies_2"@,
        "itypDependencies_2"@,
        "Interiors"@,
        "Bounds"@,
        "WeatherTypes"@,
        "itypDepArray"@,
        "dependencies"@,
        "compositeEntityTypes"@,
        "defaultEntitySets"@,
        "Effects"@,
    ]
}

/// An empty element is an empty list where its name is one of those that only
/// ever hold items, and an empty text where it is not.
pub proof fn law_empty_elements(n: XmlNodeView, floats: crate::coerce::Floats)
    requires
        n.text is None,
        crate::xml::attribute_of(n, "itemType"@) is None,
        crate::xml::attribute_of(n, "type"@) is None,
        n.tag != "Item"@,
    ensures
        list_names().contains(n.tag) ==> crate::xml::leaf_value(n, floats) == ValueView::Array(
            ArrayView { item_type: None, typed_items: false, items: Seq::empty() },
        ),
        !list_names().contains(n.tag) ==> crate::xml::leaf_value(n, floats) == ValueView::Str(
            Seq::empty(),
        ),
{
    let names = list_names();
    assert(crate::xml::is_list_name(n.tag) <==> names.contains(n.tag)) by {
        assert(names[0] == "entities"@);
        assert(names[1] == "extensions"@);
        assert(names[2] == "archetypes"@);
        assert(names[3] == "rooms"@);
        assert(names[4] == "portals"@);
        assert(names[5] == "entitySets"@);
        assert(names[6] == "attachedObjects"@);
        assert(names[7] == "locations"@);
        assert(names[8] == "containerLods"@);
        assert(names[9] == "boxOccluders"@);
        assert(names[10] == "occludeModels"@);
        assert(names[11] == "physicsDictionaries"@);
        assert(names[12] == "timeCycleModifiers"@);
        assert(names[13] == "carGenerators"@);
        assert(names[14] == "instances"@);
        assert(names[15] == "corners"@);
        assert(names[16] == "MapDataGroups"@);
        assert(names[17] == "HDTxdBindingArray"@);
        assert(names[18] == "imapDependencies"@);
        assert(names[19] == "imapDependencies_2"@);
        assert(names[20] == "itypDependencies_2"@);
        assert(names[21] == "Interiors"@);
        assert(names[22] == "Bounds"@);
        assert(names[23] == "WeatherTypes"@);
        assert(names[24] == "itypDepArray"@);
        assert(names[25] == "dependencies"@);
        assert(names[26] == "compositeEntityTypes"@);
        assert(names[27] == "defaultEntitySets"@);
        assert(names[28] == "Effects"@);
        assert(names.len() == 29);
    }
}

/// The type of the items of a list without one is named after its first item,
/// whatever that holds and whatever follows.
pub proof fn law_item_types(items: Seq<ValueView>)
    requires
        items.len() > 0,
    ensures
        items[0] is Bool ==> crate::xml::raw_type(items) == Some("boolean"@),
        items[0] is I8 ==> crate::xml::raw_type(items) == Some("sbyte"@),
        items[0] is U8 ==> crate::xml::raw_type(items) == Some("byte"@),
        items[0] is I16 ==> crate::xml::raw_type(items) == Some("short"@),
        items[0] is U16 ==> crate::xml::raw_type(items) == Some("ushort"@),
        items[0] is I32 ==> crate::xml::raw_type(items) == Some("int"@),
        items[0] is U32 ==> crate::xml::raw_type(items) == Some("uint"@),
        items[0] is I64 || items[0] is U64 ==> crate::xml::raw_type(items) == Some("long"@),
        items[0] is F32 ==> crate::xml::raw_type(items) == Some("float"@),
        items[0] is Vec2 ==> crate::xml::raw_type(items) == Some("Vector2"@),
        items[0] is Vec3 ==> crate::xml::raw_type(items) == Some("Vector3"@),
        items[0] is Vec4 ==> crate::xml::raw_type(items) == Some("Vector4"@),
        items[0] is Hash || items[0] is Str ==> crate::xml::raw_type(items) == Some("Hash"@),
        items[0] is Enum ==> crate::xml::raw_type(items) == Some("enum"@),
        items[0] is Struct || items[0] is Array || items[0] is Null || items[0] is Bytes
            ==> crate::xml::raw_type(items) is None,
{
}

} // verus!
