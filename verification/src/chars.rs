//! Splitting and reading text as sequences of characters.

use vstd::prelude::*;
use vstd::slice::*;
use vstd::string::*;

use crate::text::{parse_decimal, parse_hex};

verus! {

broadcast use vstd::slice::group_slice_axioms;

/// Whether a character is white space, as Unicode's `White_Space` has it.
pub open spec fn is_space(c: char) -> bool {
    ||| '\u{9}' <= c <= '\u{d}'
    ||| c == ' '
    ||| c == '\u{85}'
    ||| c == '\u{a0}'
    ||| c == '\u{1680}'
    ||| '\u{2000}' <= c <= '\u{200a}'
    ||| c == '\u{2028}'
    ||| c == '\u{2029}'
    ||| c == '\u{202f}'
    ||| c == '\u{205f}'
    ||| c == '\u{3000}'
}

/// Whether a character parts words: white space, or a comma where commas
/// count.
pub open spec fn is_gap(c: char, comma: bool) -> bool {
    is_space(c) || (comma && c == ',')
}

/// The first place from `i` on that is not white space.
pub open spec fn space_end(s: Seq<char>, i: int) -> int
    decreases s.len() - i,
{
    if i >= s.len() || !is_space(s[i]) {
        i
    } else {
        space_end(s, i + 1)
    }
}

/// The end of what is left of `s` once the white space before `j` is gone.
pub open spec fn text_end(s: Seq<char>, j: int) -> int
    decreases j,
{
    if j <= 0 || !is_space(s[j - 1]) {
        j
    } else {
        text_end(s, j - 1)
    }
}

/// `s` without white space at either end.
pub open spec fn trimmed(s: Seq<char>) -> Seq<char> {
    let a = space_end(s, 0);
    let b = text_end(s, s.len() as int);
    if a >= b {
        Seq::empty()
    } else {
        s.subrange(a, b)
    }
}

/// The first place from `i` on that parts no words.
pub open spec fn gap_end(s: Seq<char>, i: int, comma: bool) -> int
    decreases s.len() - i,
{
    if i >= s.len() || !is_gap(s[i], comma) {
        i
    } else {
        gap_end(s, i + 1, comma)
    }
}

/// The first place from `i` on that parts words.
pub open spec fn word_end(s: Seq<char>, i: int, comma: bool) -> int
    decreases s.len() - i,
{
    if i >= s.len() || is_gap(s[i], comma) {
        i
    } else {
        word_end(s, i + 1, comma)
    }
}

proof fn lemma_ends(s: Seq<char>, i: int, comma: bool)
    requires
        0 <= i <= s.len(),
    ensures
        i <= gap_end(s, i, comma) <= s.len(),
        i <= word_end(s, i, comma) <= s.len(),
        i < s.len() && !is_gap(s[i], comma) ==> word_end(s, i, comma) > i,
        gap_end(s, i, comma) < s.len() ==> !is_gap(s[gap_end(s, i, comma)], comma),
    decreases s.len() - i,
{
    if i < s.len() {
        lemma_ends(s, i + 1, comma);
    }
}

/// The words of `s` from `i` on.
pub open spec fn words_from(s: Seq<char>, i: int, comma: bool) -> Seq<Seq<char>>
    decreases s.len() - i,
{
    if 0 <= i <= s.len() {
        let a = gap_end(s, i, comma);
        let b = word_end(s, a, comma);
        if a < s.len() && a < b <= s.len() && i <= a {
            seq![s.subrange(a, b)] + words_from(s, b, comma)
        } else {
            Seq::empty()
        }
    } else {
        Seq::empty()
    }
}

/// The words of `s`: its longest runs of characters that part no words.
pub open spec fn words(s: Seq<char>, comma: bool) -> Seq<Seq<char>> {
    words_from(s, 0, comma)
}

/// The first `c` in `s` from `i` on, or its end.
pub open spec fn next_char(s: Seq<char>, c: char, i: int) -> int
    decreases s.len() - i,
{
    if i >= s.len() || s[i] == c {
        i
    } else {
        next_char(s, c, i + 1)
    }
}

/// The pieces of `s` from `i` on between its `c`s, empty ones too.
pub open spec fn pieces_from(s: Seq<char>, c: char, i: int) -> Seq<Seq<char>>
    decreases s.len() - i,
{
    let b = next_char(s, c, i);
    if 0 <= i <= b < s.len() {
        seq![s.subrange(i, b)] + pieces_from(s, c, b + 1)
    } else {
        seq![s.subrange(i, s.len() as int)]
    }
}

/// The pieces of `s` between its `c`s, empty ones too.
pub open spec fn pieces(s: Seq<char>, c: char) -> Seq<Seq<char>> {
    pieces_from(s, c, 0)
}

/// The text of each of a list of character runs.
pub open spec fn runs(v: Seq<Vec<char>>) -> Seq<Seq<char>> {
    Seq::new(v.len(), |i: int| v[i]@)
}

/// Whether a character is white space.
pub fn is_whitespace(c: char) -> (r: bool)
    ensures
        r == is_space(c),
{
    ('\u{9}' <= c && c <= '\u{d}') || c == ' ' || c == '\u{85}' || c == '\u{a0}' || c == '\u{1680}'
        || ('\u{2000}' <= c && c <= '\u{200a}') || c == '\u{2028}' || c == '\u{2029}' || c
        == '\u{202f}' || c == '\u{205f}' || c == '\u{3000}'
}

/// A copy of the characters from `a` to `b`.
pub fn copy_chars(s: &[char], a: usize, b: usize) -> (r: Vec<char>)
    requires
        a <= b <= s@.len(),
    ensures
        r@ == s@.subrange(a as int, b as int),
{
    let mut out: Vec<char> = Vec::new();
    let mut i: usize = a;
    while i < b
        invariant
            a <= i <= b <= s@.len(),
            out@ == s@.subrange(a as int, i as int),
        decreases b - i,
    {
        out.push(s[i]);
        i += 1;
        assert(out@ =~= s@.subrange(a as int, i as int));
    }
    out
}

/// `s` without white space at either end.
pub fn trim(s: &[char]) -> (r: &[char])
    ensures
        r@ == trimmed(s@),
{
    let mut a: usize = 0;
    while a < s.len() && is_whitespace(s[a])
        invariant
            a <= s@.len(),
            space_end(s@, 0) == space_end(s@, a as int),
        decreases s@.len() - a,
    {
        a += 1;
    }
    let mut b: usize = s.len();
    while b > 0 && is_whitespace(s[b - 1])
        invariant
            b <= s@.len(),
            text_end(s@, s@.len() as int) == text_end(s@, b as int),
        decreases b,
    {
        b -= 1;
    }
    if a >= b {
        let r = slice_subrange(s, 0, 0);
        assert(r@ =~= Seq::<char>::empty());
        r
    } else {
        slice_subrange(s, a, b)
    }
}

/// The words of `s`.
pub fn split_words(s: &[char], comma: bool) -> (r: Vec<Vec<char>>)
    ensures
        runs(r@) == words(s@, comma),
{
    let mut out: Vec<Vec<char>> = Vec::new();
    let mut i: usize = 0;
    let ghost all = words(s@, comma);
    assert(runs(out@) + all =~= all);
    let mut open = true;
    while open
        invariant
            i <= s@.len(),
            all == words(s@, comma),
            open ==> runs(out@) + words_from(s@, i as int, comma) == all,
            !open ==> runs(out@) == all,
        decreases (if open { 1int } else { 0int }), s@.len() - i,
    {
        proof {
            lemma_ends(s@, i as int, comma);
        }
        let mut a: usize = i;
        while a < s.len() && (is_whitespace(s[a]) || (comma && s[a] == ','))
            invariant
                i <= a <= s@.len(),
                gap_end(s@, i as int, comma) == gap_end(s@, a as int, comma),
            decreases s@.len() - a,
        {
            a += 1;
        }
        proof {
            lemma_ends(s@, a as int, comma);
        }
        if a == s.len() {
            assert(runs(out@) + words_from(s@, i as int, comma) =~= runs(out@));
            open = false;
        } else {
            let mut b: usize = a;
            while b < s.len() && !(is_whitespace(s[b]) || (comma && s[b] == ','))
                invariant
                    a <= b <= s@.len(),
                    word_end(s@, a as int, comma) == word_end(s@, b as int, comma),
                decreases s@.len() - b,
            {
                b += 1;
            }
            let ghost was = out@;
            let ghost rest = words_from(s@, i as int, comma);
            out.push(copy_chars(s, a, b));
            proof {
                assert(rest =~= seq![s@.subrange(a as int, b as int)] + words_from(
                    s@,
                    b as int,
                    comma,
                ));
                assert(runs(out@) =~= runs(was).push(s@.subrange(a as int, b as int)));
                assert(runs(out@) + words_from(s@, b as int, comma) =~= runs(was) + rest);
            }
            i = b;
        }
    }
    out
}

/// The pieces of `s` between its `c`s, empty ones too.
pub fn split_at_char(s: &[char], c: char) -> (r: Vec<Vec<char>>)
    ensures
        runs(r@) == pieces(s@, c),
{
    let mut out: Vec<Vec<char>> = Vec::new();
    let mut i: usize = 0;
    let ghost all = pieces(s@, c);
    assert(runs(out@) + all =~= all);
    let mut open = true;
    while open
        invariant
            i <= s@.len(),
            all == pieces(s@, c),
            open ==> runs(out@) + pieces_from(s@, c, i as int) == all,
            !open ==> runs(out@) == all,
        decreases (if open { 1int } else { 0int }), s@.len() - i,
    {
        let mut b: usize = i;
        while b < s.len() && s[b] != c
            invariant
                i <= b <= s@.len(),
                next_char(s@, c, i as int) == next_char(s@, c, b as int),
            decreases s@.len() - b,
        {
            b += 1;
        }
        let ghost was = out@;
        let ghost rest = pieces_from(s@, c, i as int);
        out.push(copy_chars(s, i, b));
        assert(runs(out@) =~= runs(was).push(s@.subrange(i as int, b as int)));
        if b == s.len() {
            assert(rest =~= seq![s@.subrange(i as int, s@.len() as int)]);
            assert(runs(out@) =~= runs(was) + rest);
            open = false;
        } else {
            assert(runs(out@) + pieces_from(s@, c, b + 1) =~= runs(was) + rest);
            i = b + 1;
        }
    }
    out
}

/// The number that digits write in base ten, or sixteen where `hex`: at
/// least one digit, and nothing else.
pub open spec fn digits(s: Seq<char>, hex: bool) -> Option<nat> {
    if s.len() == 0 {
        None
    } else if hex {
        crate::text::hex_number(s)
    } else {
        crate::text::decimal_number(s)
    }
}

/// The unsigned number that `s` writes, with a plus sign or without, where
/// it is no more than `max`.
pub open spec fn unsigned(s: Seq<char>, hex: bool, max: int) -> Option<int> {
    let d = if s.len() > 0 && s[0] == '+' {
        s.skip(1)
    } else {
        s
    };
    match digits(d, hex) {
        Some(n) => if n <= max {
            Some(n as int)
        } else {
            None
        },
        None => None,
    }
}

/// The signed number that `s` writes, where an `i64` holds it.
pub open spec fn signed(s: Seq<char>, hex: bool) -> Option<int> {
    if s.len() > 0 && s[0] == '-' {
        match digits(s.skip(1), hex) {
            Some(n) => if n <= 0x8000_0000_0000_0000 {
                Some(-(n as int))
            } else {
                None
            },
            None => None,
        }
    } else {
        unsigned(s, hex, i64::MAX as int)
    }
}

fn parse_digits(s: &[char], hex: bool) -> (r: Option<u64>)
    ensures
        r == match digits(s@, hex) {
            Some(n) => if n <= u64::MAX { Some(n as u64) } else { None },
            None => None,
        },
{
    if s.len() == 0 {
        None
    } else if hex {
        parse_hex(s)
    } else {
        parse_decimal(s)
    }
}

/// The unsigned number that `s` writes, where it is no more than `max`.
pub fn parse_unsigned(s: &[char], hex: bool, max: u64) -> (r: Option<u64>)
    ensures
        unsigned(s@, hex, max as int) == (match r {
            Some(n) => Some(n as int),
            None => None,
        }),
{
    let d = if s.len() > 0 && s[0] == '+' {
        let t = slice_subrange(s, 1, s.len());
        assert(t@ =~= s@.skip(1));
        t
    } else {
        s
    };
    match parse_digits(d, hex) {
        Some(n) => if n <= max {
            Some(n)
        } else {
            None
        },
        None => None,
    }
}

/// The signed number that `s` writes, where an `i64` holds it.
pub fn parse_signed(s: &[char], hex: bool) -> (r: Option<i64>)
    ensures
        signed(s@, hex) == (match r {
            Some(n) => Some(n as int),
            None => None,
        }),
{
    if s.len() > 0 && s[0] == '-' {
        let t = slice_subrange(s, 1, s.len());
        assert(t@ =~= s@.skip(1));
        match parse_digits(t, hex) {
            Some(n) => if n < 0x8000_0000_0000_0000 {
                Some(-(n as i64))
            } else if n == 0x8000_0000_0000_0000 {
                Some(i64::MIN)
            } else {
                None
            },
            None => None,
        }
    } else {
        match parse_unsigned(s, hex, 0x7FFF_FFFF_FFFF_FFFF) {
            Some(n) => Some(n as i64),
            None => None,
        }
    }
}

/// Whether `s` starts with `prefix`.
pub open spec fn starts(s: Seq<char>, prefix: Seq<char>) -> bool {
    s.len() >= prefix.len() && s.take(prefix.len() as int) == prefix
}

/// What follows `prefix` in `s`, where `s` starts with it.
pub fn strip<'a>(s: &'a [char], prefix: &str) -> (r: Option<&'a [char]>)
    ensures
        match r {
            Some(t) => starts(s@, prefix@) && t@ == s@.skip(prefix@.len() as int),
            None => !starts(s@, prefix@),
        },
{
    let p = crate::text::chars_of(prefix);
    if s.len() < p.len() {
        return None;
    }
    let mut i: usize = 0;
    while i < p.len()
        invariant
            i <= p@.len() <= s@.len(),
            p@ == prefix@,
            forall|k: int| 0 <= k < i ==> s@[k] == p@[k],
        decreases p@.len() - i,
    {
        if s[i] != p[i] {
            assert(s@.take(p@.len() as int)[i as int] != p@[i as int]);
            return None;
        }
        i += 1;
    }
    assert(s@.take(p@.len() as int) =~= p@);
    let t = slice_subrange(s, p.len(), s.len());
    assert(t@ =~= s@.skip(p@.len() as int));
    Some(t)
}

/// An ASCII letter in lower case; any other character as it is.
pub open spec fn lower(c: char) -> char {
    if 'A' <= c <= 'Z' {
        (c as int + 0x20) as char
    } else {
        c
    }
}

/// `s` with its ASCII letters in lower case.
pub open spec fn lowered(s: Seq<char>) -> Seq<char> {
    Seq::new(s.len(), |i: int| lower(s[i]))
}

/// An ASCII letter in lower case; any other character as it is.
pub fn to_lower(c: char) -> (r: char)
    ensures
        r == lower(c),
{
    if 'A' <= c && c <= 'Z' {
        (c as u8 + 0x20) as char
    } else {
        c
    }
}

/// Whether two runs of characters are the same.
pub fn same_chars(a: &[char], b: &[char]) -> (r: bool)
    ensures
        r == (a@ == b@),
{
    if a.len() != b.len() {
        return false;
    }
    let mut i: usize = 0;
    while i < a.len()
        invariant
            i <= a@.len() == b@.len(),
            forall|k: int| 0 <= k < i ==> a@[k] == b@[k],
        decreases a@.len() - i,
    {
        if a[i] != b[i] {
            return false;
        }
        i += 1;
    }
    assert(a@ =~= b@);
    true
}

/// Whether `s` is `word`, whatever the case of its ASCII letters. `word` is
/// in lower case.
pub fn same_ignoring_case(s: &[char], word: &str) -> (r: bool)
    ensures
        r == (lowered(s@) == word@),
{
    let mut low: Vec<char> = Vec::new();
    let mut i: usize = 0;
    while i < s.len()
        invariant
            i <= s@.len(),
            low@ == lowered(s@).take(i as int),
        decreases s@.len() - i,
    {
        low.push(to_lower(s[i]));
        i += 1;
        assert(low@ =~= lowered(s@).take(i as int));
    }
    assert(low@ =~= lowered(s@));
    let w = crate::text::chars_of(word);
    same_chars(low.as_slice(), w.as_slice())
}

} // verus!
