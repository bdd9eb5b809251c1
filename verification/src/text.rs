//! Character-level helpers shared by the rest of the library: decimal
//! rendering, ASCII digits, Unicode whitespace and UTF-8 byte widths.

use vstd::prelude::*;
use vstd::string::*;
use vstd::utf8::*;

verus! {

/// `char::is_ascii_digit`.
pub open spec fn is_ascii_digit(c: char) -> bool {
    '0' <= c && c <= '9'
}

/// Numeric value of an ASCII digit.
pub open spec fn digit_value(c: char) -> int {
    (c as int) - ('0' as int)
}

/// The ASCII digit for `d < 10`.
pub open spec fn digit_char(d: nat) -> char {
    ((d + 48) as u32) as char
}

/// Every character of `s` is an ASCII digit.
pub open spec fn all_digits(s: Seq<char>) -> bool {
    forall|i: int| 0 <= i < s.len() ==> is_ascii_digit(#[trigger] s[i])
}

/// The digit for `d < 10` is an ASCII digit of value `d`.
pub proof fn lemma_digit_char_value(d: nat)
    requires
        d < 10,
    ensures
        is_ascii_digit(digit_char(d)),
        digit_value(digit_char(d)) == d,
{
    assert(((d + 48) as u32) as char as u32 == (d + 48) as u32) by {
        vstd::utf8::char_u32_cast(((d + 48) as u32) as char, (d + 48) as u32);
    }
}

/// Base-10 rendering of a natural number, without sign or leading zeros.
pub open spec fn decimal(n: nat) -> Seq<char>
    decreases n,
{
    if n < 10 {
        seq![digit_char(n)]
    } else {
        decimal(n / 10).push(digit_char(n % 10))
    }
}

/// `char::is_whitespace`: the Unicode `White_Space` property.
pub open spec fn is_unicode_whitespace(c: char) -> bool {
    let u = c as u32;
    ||| 0x09 <= u <= 0x0D
    ||| u == 0x20
    ||| u == 0x85
    ||| u == 0xA0
    ||| u == 0x1680
    ||| 0x2000 <= u <= 0x200A
    ||| u == 0x2028
    ||| u == 0x2029
    ||| u == 0x202F
    ||| u == 0x205F
    ||| u == 0x3000
}

/// `s.trim().is_empty()`: nothing but whitespace.
pub open spec fn blank(s: Seq<char>) -> bool {
    forall|i: int| 0 <= i < s.len() ==> is_unicode_whitespace(#[trigger] s[i])
}

/// Number of bytes in the UTF-8 encoding of `c` (`char::len_utf8`).
pub open spec fn utf8_width(c: char) -> nat {
    let u = c as u32;
    if u <= 0x7F {
        1
    } else if u <= 0x7FF {
        2
    } else if u <= 0xFFFF {
        3
    } else {
        4
    }
}

/// Number of bytes in the UTF-8 encoding of `s` (`str::len`).
pub open spec fn byte_len(s: Seq<char>) -> nat
    decreases s.len(),
{
    if s.len() == 0 {
        0
    } else {
        utf8_width(s[0]) + byte_len(s.drop_first())
    }
}

pub proof fn lemma_encode_utf8_len(s: Seq<char>)
    ensures
        encode_utf8(s).len() == byte_len(s),
    decreases s.len(),
{
    if s.len() > 0 {
        char_is_scalar(s[0]);
        lemma_encode_utf8_len(s.drop_first());
    }
}

pub proof fn lemma_byte_len_append(a: Seq<char>, b: Seq<char>)
    ensures
        byte_len(a + b) == byte_len(a) + byte_len(b),
    decreases a.len(),
{
    if a.len() > 0 {
        assert((a + b).drop_first() =~= a.drop_first() + b);
        lemma_byte_len_append(a.drop_first(), b);
    } else {
        assert(a + b =~= b);
    }
}

pub proof fn lemma_byte_len_push(a: Seq<char>, c: char)
    ensures
        byte_len(a.push(c)) == byte_len(a) + utf8_width(c),
{
    lemma_byte_len_append(a, seq![c]);
    assert(a.push(c) =~= a + seq![c]);
    assert(seq![c].drop_first() =~= Seq::<char>::empty());
    reveal_with_fuel(byte_len, 2);
}

/// Appends one character (`String::push`).
#[verifier::external_body]
pub(crate) fn push_char(s: &mut String, c: char)
    ensures
        final(s)@ == old(s)@.push(c),
{
    s.push(c);
}

/// The characters of `s`, in order.
pub fn chars_of(s: &str) -> (v: Vec<char>)
    ensures
        v@ == s@,
{
    let mut v: Vec<char> = Vec::new();
    for c in it: s.chars()
        invariant
            v@ == it.seq().take(it.index() as int),
    {
        v.push(c);
    }
    v
}

/// Appends the characters `chars[from..to]` to `out`.
pub fn push_chars(out: &mut String, chars: &[char], from: usize, to: usize)
    requires
        from <= to <= chars@.len(),
    ensures
        final(out)@ == old(out)@ + chars@.subrange(from as int, to as int),
{
    let mut i: usize = from;
    while i < to
        invariant
            from <= i <= to <= chars@.len(),
            out@ == old(out)@ + chars@.subrange(from as int, i as int),
        decreases to - i,
    {
        push_char(out, chars[i]);
        assert(chars@.subrange(from as int, i as int).push(chars@[i as int])
            =~= chars@.subrange(from as int, i + 1));
        assert(out@ =~= old(out)@ + chars@.subrange(from as int, i + 1));
        i += 1;
    }
}

/// A `String` holding exactly `chars`.
pub fn string_of(chars: &[char]) -> (r: String)
    ensures
        r@ == chars@,
{
    let mut r = String::new();
    push_chars(&mut r, chars, 0, chars.len());
    assert(chars@.subrange(0, chars@.len() as int) =~= chars@);
    assert(r@ =~= chars@);
    r
}

/// The ASCII digit for `d`.
pub fn ascii_digit(d: u64) -> (c: char)
    requires
        d < 10,
    ensures
        c == digit_char(d as nat),
        is_ascii_digit(c),
{
    let b: u8 = (d as u8) + 48u8;
    b as char
}

/// Base-10 rendering of `n` (`u64::to_string`).
pub fn decimal_string(n: u64) -> (s: String)
    ensures
        s@ == decimal(n as nat),
    decreases n,
{
    if n < 10 {
        let mut s = String::new();
        push_char(&mut s, ascii_digit(n));
        s
    } else {
        let mut s = decimal_string(n / 10);
        push_char(&mut s, ascii_digit(n % 10));
        s
    }
}

/// Appends the base-10 rendering of `n` to `out`.
pub fn push_decimal(out: &mut String, n: u64)
    ensures
        final(out)@ == old(out)@ + decimal(n as nat),
{
    let d = decimal_string(n);
    out.append(d.as_str());
}

/// `char::is_whitespace`.
pub fn is_whitespace(c: char) -> (b: bool)
    ensures
        b == is_unicode_whitespace(c),
{
    let u = c as u32;
    (0x09 <= u && u <= 0x0D) || u == 0x20 || u == 0x85 || u == 0xA0 || u == 0x1680 || (0x2000
        <= u && u <= 0x200A) || u == 0x2028 || u == 0x2029 || u == 0x202F || u == 0x205F || u
        == 0x3000
}

/// `s.trim().is_empty()`.
pub fn is_blank(s: &str) -> (b: bool)
    ensures
        b == blank(s@),
{
    let v = chars_of(s);
    let mut i: usize = 0;
    while i < v.len()
        invariant
            i <= v.len(),
            v@ == s@,
            forall|j: int| 0 <= j < i ==> is_unicode_whitespace(#[trigger] v@[j]),
        decreases v.len() - i,
    {
        if !is_whitespace(v[i]) {
            return false;
        }
        i += 1;
    }
    true
}

/// `char::len_utf8`.
pub fn char_width(c: char) -> (w: usize)
    ensures
        w == utf8_width(c),
{
    let u = c as u32;
    if u <= 0x7F {
        1
    } else if u <= 0x7FF {
        2
    } else if u <= 0xFFFF {
        3
    } else {
        4
    }
}

/// Byte length of `s` (`str::len`).
pub fn byte_length(s: &str) -> (n: usize)
    requires
        byte_len(s@) <= usize::MAX,
    ensures
        n == byte_len(s@),
{
    proof {
        lemma_encode_utf8_len(s@);
    }
    let n: usize = s.len();
    assert(s.spec_bytes() == encode_utf8(s@));
    n
}


/// The strings `ss` joined by `sep` (`[String]::join`).
pub open spec fn joined(ss: Seq<Seq<char>>, sep: Seq<char>) -> Seq<char>
    decreases ss.len(),
{
    if ss.len() == 0 {
        Seq::empty()
    } else if ss.len() == 1 {
        ss[0]
    } else {
        joined(ss.drop_last(), sep) + sep + ss.last()
    }
}

/// The view of each string in `v`.
pub open spec fn views_of(v: Seq<String>) -> Seq<Seq<char>> {
    v.map_values(|s: String| s@)
}

/// `parts.join(sep)`.
pub fn join_strings(parts: &Vec<String>, sep: &str) -> (r: String)
    ensures
        r@ == joined(views_of(parts@), sep@),
{
    let mut r = String::new();
    let mut i: usize = 0;
    while i < parts.len()
        invariant
            i <= parts@.len(),
            r@ == joined(views_of(parts@).take(i as int), sep@),
        decreases parts.len() - i,
    {
        assert(views_of(parts@).take(i + 1).drop_last() =~= views_of(parts@).take(i as int));
        if i > 0 {
            r.append(sep);
        } else {
            assert(views_of(parts@).take(1) =~= seq![parts@[0]@]);
            assert(r@ =~= Seq::<char>::empty());
        }
        r.append(parts[i].as_str());
        assert(r@ =~= joined(views_of(parts@).take(i + 1), sep@));
        i += 1;
    }
    assert(views_of(parts@).take(parts@.len() as int) =~= views_of(parts@));
    r
}

} // verus!
