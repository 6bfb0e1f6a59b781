//! Text as sequences of characters: numbers to digits and back.

use vstd::prelude::*;
use vstd::string::*;

verus! {

/// `String::push` appends the character.
pub assume_specification[ std::string::String::push ](s: &mut std::string::String, c: char)
    ensures
        final(s)@ == old(s)@.push(c),
;

/// The text that lossy UTF-8 decoding makes of bytes that are not valid.
pub uninterp spec fn utf8_lossy(bytes: Seq<u8>) -> Seq<char>;

/// `String::from_utf8_lossy`: bytes that are valid UTF-8 keep their text,
/// and every other input gives one text that depends on the bytes alone.
#[verifier::external_body]
pub(crate) fn from_utf8_lossy(bytes: &[u8]) -> (r: String)
    ensures
        vstd::utf8::valid_utf8(bytes@) ==> r@ == vstd::utf8::decode_utf8(bytes@),
        !vstd::utf8::valid_utf8(bytes@) ==> r@ == utf8_lossy(bytes@),
{
    String::from_utf8_lossy(bytes).into_owned()
}

/// `std::str::from_utf8`: the text of bytes that are valid UTF-8, nothing for
/// others.
#[verifier::external_body]
pub(crate) fn from_utf8(bytes: &[u8]) -> (r: Option<String>)
    ensures
        match r {
            Some(t) => vstd::utf8::valid_utf8(bytes@) && t@ == vstd::utf8::decode_utf8(bytes@),
            None => !vstd::utf8::valid_utf8(bytes@),
        },
{
    std::str::from_utf8(bytes).ok().map(String::from)
}

/// The text of any bytes: what they decode to where they are valid UTF-8.
pub open spec fn lossy_text(bytes: Seq<u8>) -> Seq<char> {
    if vstd::utf8::valid_utf8(bytes) {
        vstd::utf8::decode_utf8(bytes)
    } else {
        utf8_lossy(bytes)
    }
}

/// A text encodes to bytes that decode to it again.
pub proof fn law_text_round_trip(text: Seq<char>)
    ensures
        lossy_text(vstd::utf8::encode_utf8(text)) == text,
{
    vstd::utf8::encode_utf8_valid_utf8(text);
    vstd::utf8::encode_utf8_decode_utf8(text);
}

/// The lower-case equivalent of a text.
pub uninterp spec fn lowercased(text: Seq<char>) -> Seq<char>;

/// `str::to_lowercase`: the lower-case equivalent of a text, as Unicode
/// defines it, which depends on the text alone.
#[verifier::external_body]
pub(crate) fn to_lowercase(text: &str) -> (r: String)
    ensures
        r@ == lowercased(text@),
{
    text.to_lowercase()
}

/// The decimal digit of `d`.
pub open spec fn digit(d: int) -> char {
    (0x30 + d) as char
}

/// The digit of `d` in upper-case hexadecimal.
pub open spec fn hex_digit(d: int) -> char {
    if d < 10 {
        (0x30 + d) as char
    } else {
        (0x37 + d) as char
    }
}

/// `n` in decimal.
pub open spec fn decimal(n: nat) -> Seq<char>
    decreases n,
{
    if n < 10 {
        seq![digit(n as int)]
    } else {
        decimal(n / 10).push(digit((n % 10) as int))
    }
}

/// `n` in decimal, with a sign where it is negative.
pub open spec fn signed_decimal(n: int) -> Seq<char> {
    if n < 0 {
        seq!['-'] + decimal((-n) as nat)
    } else {
        decimal(n as nat)
    }
}

/// The low `width` hexadecimal digits of `n`, upper case.
pub open spec fn hex(n: nat, width: nat) -> Seq<char>
    decreases width,
{
    if width == 0 {
        Seq::empty()
    } else {
        hex(n / 16, (width - 1) as nat).push(hex_digit((n % 16) as int))
    }
}

/// The digit of `d` in lower-case hexadecimal.
pub open spec fn hex_digit_lower(d: int) -> char {
    if d < 10 {
        (0x30 + d) as char
    } else {
        (0x57 + d) as char
    }
}

/// The low `width` hexadecimal digits of `n`, lower case.
pub open spec fn hex_lower(n: nat, width: nat) -> Seq<char>
    decreases width,
{
    if width == 0 {
        Seq::empty()
    } else {
        hex_lower(n / 16, (width - 1) as nat).push(hex_digit_lower((n % 16) as int))
    }
}

/// The value of a hexadecimal digit of either case.
pub open spec fn hex_value(c: char) -> Option<int> {
    if '0' <= c <= '9' {
        Some(c as int - 0x30)
    } else if 'A' <= c <= 'F' {
        Some(c as int - 0x37)
    } else if 'a' <= c <= 'f' {
        Some(c as int - 0x57)
    } else {
        None
    }
}

/// The number that hexadecimal digits write, if all of them are digits.
pub open spec fn hex_number(s: Seq<char>) -> Option<nat>
    decreases s.len(),
{
    if s.len() == 0 {
        Some(0)
    } else {
        match (hex_number(s.drop_last()), hex_value(s.last())) {
            (Some(n), Some(d)) => Some((16 * n + d) as nat),
            _ => None,
        }
    }
}

/// The number that decimal digits write, if all of them are digits.
pub open spec fn decimal_number(s: Seq<char>) -> Option<nat>
    decreases s.len(),
{
    if s.len() == 0 {
        Some(0)
    } else {
        match decimal_number(s.drop_last()) {
            Some(n) => if '0' <= s.last() <= '9' {
                Some((10 * n + (s.last() as int - 0x30)) as nat)
            } else {
                None
            },
            None => None,
        }
    }
}

/// `width` hexadecimal digits write at most `16^width - 1`.
pub open spec fn pow16(width: nat) -> nat
    decreases width,
{
    if width == 0 {
        1
    } else {
        16 * pow16((width - 1) as nat)
    }
}

/// Reading back printed hexadecimal digits gives the number, where it fits.
pub proof fn law_hex_round_trip(n: nat, width: nat)
    requires
        n < pow16(width),
    ensures
        hex(n, width).len() == width,
        hex_number(hex(n, width)) == Some(n),
    decreases width,
{
    if width > 0 {
        law_hex_round_trip(n / 16, (width - 1) as nat);
        let s = hex(n, width);
        assert(s.drop_last() =~= hex(n / 16, (width - 1) as nat));
        let d = (n % 16) as int;
        assert(s.last() == hex_digit(d));
        assert(hex_value(hex_digit(d)) == Some(d));
        assert(16 * (n / 16) + d == n);
    }
}

/// Reading back a printed decimal number gives the number.
pub proof fn law_decimal_round_trip(n: nat)
    ensures
        decimal(n).len() > 0,
        decimal_number(decimal(n)) == Some(n),
    decreases n,
{
    let s = decimal(n);
    if n >= 10 {
        law_decimal_round_trip(n / 10);
        assert(s.drop_last() =~= decimal(n / 10));
        assert(10 * (n / 10) + n % 10 == n);
    } else {
        assert(s.drop_last() =~= Seq::<char>::empty());
        assert(decimal_number(s.drop_last()) == Some(0nat));
    }
}

/// The characters of `s`.
pub fn chars_of(s: &str) -> (r: Vec<char>)
    ensures
        r@ == s@,
{
    let mut out: Vec<char> = Vec::new();
    for c in iter: s.chars()
        invariant
            out@ == iter.seq().take(iter.index() as int),
    {
        out.push(c);
    }
    out
}

/// The text of the characters of `chars`.
pub fn string_of(chars: &[char]) -> (r: String)
    ensures
        r@ == chars@,
{
    let mut out = String::new();
    push_chars(&mut out, chars);
    assert(out@ =~= chars@);
    out
}

/// Appends every character of `chars`.
pub fn push_chars(out: &mut String, chars: &[char])
    ensures
        final(out)@ == old(out)@ + chars@,
{
    let ghost start = out@;
    let mut i: usize = 0;
    while i < chars.len()
        invariant
            i <= chars@.len(),
            out@ == start + chars@.take(i as int),
        decreases chars@.len() - i,
    {
        out.push(chars[i]);
        i += 1;
        assert(out@ =~= start + chars@.take(i as int));
    }
    assert(chars@.take(i as int) =~= chars@);
}

/// The digit of `d` in upper-case hexadecimal.
pub fn hex_char(d: u8) -> (c: char)
    requires
        d < 16,
    ensures
        c == hex_digit(d as int),
{
    if d < 10 {
        (0x30 + d) as char
    } else {
        (0x37 + d) as char
    }
}

/// Appends `n` in decimal.
pub fn push_decimal(out: &mut String, n: u64)
    ensures
        final(out)@ == old(out)@ + decimal(n as nat),
    decreases n,
{
    let ghost start = out@;
    if n >= 10 {
        push_decimal(out, n / 10);
    }
    out.push((0x30 + (n % 10) as u8) as char);
    assert(out@ =~= start + decimal(n as nat));
}

/// Appends `n` in decimal, with its sign.
pub fn push_signed(out: &mut String, n: i64)
    ensures
        final(out)@ == old(out)@ + signed_decimal(n as int),
{
    let ghost start = out@;
    if n < 0 {
        out.push('-');
        let m: u64 = if n == i64::MIN {
            0x8000_0000_0000_0000
        } else {
            (-n) as u64
        };
        push_decimal(out, m);
    } else {
        push_decimal(out, n as u64);
    }
    assert(out@ =~= start + signed_decimal(n as int));
}

/// A number in hexadecimal, upper case, with no zeros in front.
pub open spec fn hex_plain(n: nat) -> Seq<char>
    decreases n,
{
    if n < 16 {
        seq![hex_digit(n as int)]
    } else {
        hex_plain(n / 16).push(hex_digit((n % 16) as int))
    }
}

/// Appends a number in hexadecimal, upper case, with no zeros in front.
pub fn push_hex_plain(out: &mut String, n: u64)
    ensures
        final(out)@ == old(out)@ + hex_plain(n as nat),
    decreases n,
{
    let ghost start = out@;
    if n >= 16 {
        push_hex_plain(out, n / 16);
    }
    out.push(hex_char((n % 16) as u8));
    assert(out@ =~= start + hex_plain(n as nat));
}

/// Appends the low `width` hexadecimal digits of `n`, upper case.
pub fn push_hex(out: &mut String, n: u64, width: usize)
    ensures
        final(out)@ == old(out)@ + hex(n as nat, width as nat),
    decreases width,
{
    let ghost start = out@;
    if width > 0 {
        push_hex(out, n / 16, width - 1);
        out.push(hex_char((n % 16) as u8));
    }
    assert(out@ =~= start + hex(n as nat, width as nat));
}

/// Appends the low `width` hexadecimal digits of `n`, lower case.
pub fn push_hex_lower(out: &mut String, n: u64, width: usize)
    ensures
        final(out)@ == old(out)@ + hex_lower(n as nat, width as nat),
    decreases width,
{
    let ghost start = out@;
    if width > 0 {
        push_hex_lower(out, n / 16, width - 1);
        let d = (n % 16) as u8;
        if d < 10 {
            out.push((0x30 + d) as char);
        } else {
            out.push((0x57 + d) as char);
        }
    }
    assert(out@ =~= start + hex_lower(n as nat, width as nat));
}

/// The number that hexadecimal digits write, where every character is a
/// digit and the number fits in a `u64`.
pub fn parse_hex(s: &[char]) -> (r: Option<u64>)
    ensures
        r == match hex_number(s@) {
            Some(n) => if n <= u64::MAX { Some(n as u64) } else { None },
            None => None,
        },
{
    let mut n: u64 = 0;
    let mut i: usize = 0;
    while i < s.len()
        invariant
            i <= s@.len(),
            hex_number(s@.take(i as int)) == Some(n as nat),
        decreases s@.len() - i,
    {
        let c = s[i];
        proof {
            assert(s@.take(i + 1).drop_last() =~= s@.take(i as int));
            lemma_hex_prefix(s@, i + 1);
        }
        let d: u64 = if '0' <= c && c <= '9' {
            c as u64 - 0x30
        } else if 'A' <= c && c <= 'F' {
            c as u64 - 0x37
        } else if 'a' <= c && c <= 'f' {
            c as u64 - 0x57
        } else {
            return None;
        };
        if n > (u64::MAX - d) / 16 {
            return None;
        }
        n = 16 * n + d;
        i += 1;
    }
    assert(s@.take(i as int) =~= s@);
    Some(n)
}

/// Digits that follow only make a number larger, and a character that is no
/// digit leaves none.
proof fn lemma_hex_prefix(s: Seq<char>, k: int)
    requires
        0 <= k <= s.len(),
    ensures
        hex_number(s.take(k)) is None ==> hex_number(s) is None,
        hex_number(s) is Some ==> hex_number(s.take(k)) is Some && hex_number(s.take(k))->0
            <= hex_number(s)->0,
    decreases s.len() - k,
{
    if k < s.len() {
        lemma_hex_prefix(s, k + 1);
        assert(s.take(k + 1).drop_last() =~= s.take(k));
    } else {
        assert(s.take(k) =~= s);
    }
}

/// The number that decimal digits write, where every character is a digit
/// and the number fits in a `u64`.
pub fn parse_decimal(s: &[char]) -> (r: Option<u64>)
    ensures
        r == match decimal_number(s@) {
            Some(n) => if n <= u64::MAX { Some(n as u64) } else { None },
            None => None,
        },
{
    let mut n: u64 = 0;
    let mut i: usize = 0;
    while i < s.len()
        invariant
            i <= s@.len(),
            decimal_number(s@.take(i as int)) == Some(n as nat),
        decreases s@.len() - i,
    {
        let c = s[i];
        proof {
            assert(s@.take(i + 1).drop_last() =~= s@.take(i as int));
            lemma_decimal_prefix(s@, i + 1);
        }
        if !('0' <= c && c <= '9') {
            return None;
        }
        let d: u64 = c as u64 - 0x30;
        if n > (u64::MAX - d) / 10 {
            return None;
        }
        n = 10 * n + d;
        i += 1;
    }
    assert(s@.take(i as int) =~= s@);
    Some(n)
}

/// Digits that follow only make a number larger, and a character that is no
/// digit leaves none.
proof fn lemma_decimal_prefix(s: Seq<char>, k: int)
    requires
        0 <= k <= s.len(),
    ensures
        decimal_number(s.take(k)) is None ==> decimal_number(s) is None,
        decimal_number(s) is Some ==> decimal_number(s.take(k)) is Some
            && decimal_number(s.take(k))->0 <= decimal_number(s)->0,
    decreases s.len() - k,
{
    if k < s.len() {
        lemma_decimal_prefix(s, k + 1);
        assert(s.take(k + 1).drop_last() =~= s.take(k));
    } else {
        assert(s.take(k) =~= s);
    }
}

/// The first zero byte of `s` from `i` on, or the end.
pub open spec fn nul_end(s: Seq<u8>, i: int) -> int
    decreases s.len() - i,
{
    if i >= s.len() || s[i] == 0 {
        i
    } else {
        nul_end(s, i + 1)
    }
}

/// The text before the first NUL, or of the whole where there is none.
pub open spec fn nul_text(s: Seq<u8>) -> Seq<char> {
    lossy_text(s.take(nul_end(s, 0)))
}

/// The text before the first NUL, or of the whole where there is none.
pub fn nul_terminated(b: &[u8]) -> (r: String)
    ensures
        r@ == nul_text(b@),
{
    let mut i: usize = 0;
    while i < b.len() && b[i] != 0
        invariant
            i <= b@.len(),
            nul_end(b@, 0) == nul_end(b@, i as int),
        decreases b@.len() - i,
    {
        i += 1;
    }
    assert(b@.subrange(0, i as int) =~= b@.take(i as int));
    from_utf8_lossy(vstd::slice::slice_subrange(b, 0, i))
}

} // verus!
