//! Character classes and code-point-indexed access to text.
//!
//! Text is always indexed by code point, never by byte, so that positions stay
//! meaningful when a string or a comment holds multi-byte characters.

use vstd::prelude::*;
use vstd::string::*;

verus! {

/// Whether `c` is one of the ten decimal digits.
pub open spec fn digit(c: char) -> bool {
    '0' <= c && c <= '9'
}

/// Whether `c` may begin an identifier: an ASCII letter or an underscore.
pub open spec fn alpha(c: char) -> bool {
    ('a' <= c && c <= 'z') || ('A' <= c && c <= 'Z') || c == '_'
}

/// Whether `c` may continue an identifier.
pub open spec fn alphanumeric(c: char) -> bool {
    alpha(c) || digit(c)
}

/// The code point at `pos`, or the NUL code point where `pos` is outside the text.
pub open spec fn code_point_at(s: Seq<char>, pos: int) -> char {
    if 0 <= pos < s.len() {
        s[pos]
    } else {
        '\0'
    }
}

/// The code points of `s` from `start` up to, not including, `end`, with `end`
/// cut back to the length of `s`. Empty where the range is reversed or starts
/// at or behind the end of `s`.
pub open spec fn clamped_range(s: Seq<char>, start: int, end: int) -> Seq<char> {
    if 0 <= start <= end && start < s.len() {
        s.subrange(start, if end <= s.len() { end } else { s.len() as int })
    } else {
        Seq::empty()
    }
}

#[verifier::when_used_as_spec(digit)]
pub fn is_digit(c: char) -> (r: bool)
    ensures
        r == digit(c),
{
    c >= '0' && c <= '9'
}

#[verifier::when_used_as_spec(alpha)]
pub fn is_alpha(c: char) -> (r: bool)
    ensures
        r == alpha(c),
{
    (c >= 'a' && c <= 'z') || (c >= 'A' && c <= 'Z') || c == '_'
}

#[verifier::when_used_as_spec(alphanumeric)]
pub fn is_alphanumeric(c: char) -> (r: bool)
    ensures
        r == alphanumeric(c),
{
    is_alpha(c) || is_digit(c)
}

/// The number of code points in `s`. Linear in the length of `s`.
pub fn str_len(s: &String) -> (n: usize)
    ensures
        n == s@.len(),
{
    s.as_str().unicode_len()
}

/// The code point of `s` at `pos`; NUL where `pos` is past the end.
pub fn char_at(s: &String, pos: usize) -> (c: char)
    ensures
        c == code_point_at(s@, pos as int),
{
    if pos >= str_len(s) {
        '\0'
    } else {
        s.as_str().get_char(pos)
    }
}

/// A copy of the code points of `s` in `start..end`, with `end` cut back to the
/// length of `s`; empty where `start > end` or `start` is past the last code
/// point.
pub fn substring(s: &String, start: usize, end: usize) -> (r: String)
    ensures
        r@ == clamped_range(s@, start as int, end as int),
{
    let len = str_len(s);
    if start > end || start >= len {
        String::new()
    } else {
        let stop = if end > len { len } else { end };
        s.as_str().substring_char(start, stop).to_owned()
    }
}

/// Whether two texts hold the same code points.
pub fn same_text(a: &str, b: &str) -> (r: bool)
    ensures
        r == (a@ == b@),
{
    let n = a.unicode_len();
    if n != b.unicode_len() {
        return false;
    }
    let mut i: usize = 0;
    while i < n
        invariant
            n == a@.len(),
            n == b@.len(),
            i <= n,
            forall|j: int| 0 <= j < i ==> a@[j] == b@[j],
        decreases n - i,
    {
        if a.get_char(i) != b.get_char(i) {
            return false;
        }
        i += 1;
    }
    assert(a@ =~= b@);
    true
}

/// The code points of `s`, in order, as an indexable sequence.
pub fn code_points(s: &str) -> (v: Vec<char>)
    ensures
        v@ == s@,
{
    let mut v: Vec<char> = Vec::new();
    for c in it: s.chars()
        invariant
            it.seq() == s@,
            v@ == it.seq().take(it.index() as int),
    {
        v.push(c);
    }
    v
}

/// The character that writes the decimal digit `d`.
pub open spec fn digit_char(d: nat) -> char {
    if d == 0 {
        '0'
    } else if d == 1 {
        '1'
    } else if d == 2 {
        '2'
    } else if d == 3 {
        '3'
    } else if d == 4 {
        '4'
    } else if d == 5 {
        '5'
    } else if d == 6 {
        '6'
    } else if d == 7 {
        '7'
    } else if d == 8 {
        '8'
    } else {
        '9'
    }
}

/// The decimal numeral of `n`: most significant digit first, no leading zero
/// except for zero itself.
pub open spec fn decimal(n: nat) -> Seq<char>
    decreases n,
{
    if n < 10 {
        seq![digit_char(n)]
    } else {
        decimal(n / 10).push(digit_char(n % 10))
    }
}

/// The one-character text of the decimal digit `d`.
fn digit_text(d: usize) -> (s: &'static str)
    requires
        d < 10,
    ensures
        s@ == seq![digit_char(d as nat)],
{
    proof {
        reveal_strlit("0");
        reveal_strlit("1");
        reveal_strlit("2");
        reveal_strlit("3");
        reveal_strlit("4");
        reveal_strlit("5");
        reveal_strlit("6");
        reveal_strlit("7");
        reveal_strlit("8");
        reveal_strlit("9");
    }
    let s = if d == 0 {
        "0"
    } else if d == 1 {
        "1"
    } else if d == 2 {
        "2"
    } else if d == 3 {
        "3"
    } else if d == 4 {
        "4"
    } else if d == 5 {
        "5"
    } else if d == 6 {
        "6"
    } else if d == 7 {
        "7"
    } else if d == 8 {
        "8"
    } else {
        "9"
    };
    assert(s@ =~= seq![digit_char(d as nat)]);
    s
}

/// Appends the decimal numeral of `n` to `s`.
pub fn push_decimal(s: &mut String, n: usize)
    ensures
        final(s)@ == old(s)@ + decimal(n as nat),
    decreases n,
{
    if n >= 10 {
        push_decimal(s, n / 10);
    }
    s.append(digit_text(n % 10));
}

} // verus!
