//! Escaping of literal text for the line-oriented formats, its inverse, and
//! the numeric escapes `\uXXXX` and `\UXXXXXXXX`.

use crate::text::{chars_of, scalar_value};
use vstd::prelude::*;

verus! {

/// Whether `c` is a hexadecimal digit.
pub open spec fn is_hex_digit(c: char) -> bool {
    ('0' <= c && c <= '9') || ('a' <= c && c <= 'f') || ('A' <= c && c <= 'F')
}

/// The value of the hexadecimal digit `c`.
pub open spec fn hex_digit_value(c: char) -> nat
    recommends
        is_hex_digit(c),
{
    if '0' <= c && c <= '9' {
        (c as nat - 48) as nat
    } else if 'a' <= c && c <= 'f' {
        (c as nat - 87) as nat
    } else {
        (c as nat - 55) as nat
    }
}

/// The number that a string of hexadecimal digits denotes.
pub open spec fn hex_value(s: Seq<char>) -> nat
    decreases s.len(),
{
    if s.len() == 0 {
        0
    } else {
        16 * hex_value(s.drop_last()) + hex_digit_value(s.last())
    }
}

/// Whether `s[from..from + count]` exists and is made of hexadecimal digits.
pub open spec fn hex_run(s: Seq<char>, from: int, count: int) -> bool {
    0 <= from && from + count <= s.len() && forall|i: int|
        from <= i < from + count ==> is_hex_digit(#[trigger] s[i])
}

/// The length of the numeric escape that begins at `s[at]`: 6 for `\u` and
/// four hexadecimal digits, 10 for `\U` and eight, 0 if neither stands there.
pub open spec fn uchar_len(s: Seq<char>, at: int) -> int {
    if 0 <= at && at + 1 < s.len() && s[at] == '\\' && s[at + 1] == 'u' && hex_run(s, at + 2, 4) {
        6
    } else if 0 <= at && at + 1 < s.len() && s[at] == '\\' && s[at + 1] == 'U' && hex_run(
        s,
        at + 2,
        8,
    ) {
        10
    } else {
        0
    }
}

/// Whether `token` is one numeric escape and nothing more.
pub open spec fn is_uchar(token: Seq<char>) -> bool {
    uchar_len(token, 0) > 0 && uchar_len(token, 0) == token.len()
}

/// The character that the numeric escape `token` names, if it names one.
pub open spec fn uchar_char(token: Seq<char>) -> Option<char>
    recommends
        is_uchar(token),
{
    if is_uchar(token) && hex_value(token.skip(2)) <= 0xFFFF_FFFF {
        scalar_value(hex_value(token.skip(2)) as u32)
    } else {
        None
    }
}

/// Decides `is_hex_digit`.
pub fn hex_digit(c: char) -> (r: bool)
    ensures
        r == is_hex_digit(c),
{
    ('0' <= c && c <= '9') || ('a' <= c && c <= 'f') || ('A' <= c && c <= 'F')
}

/// Decides `hex_run`.
pub fn has_hex_run(s: &Vec<char>, from: usize, count: usize) -> (r: bool)
    requires
        count <= 8,
    ensures
        r == hex_run(s@, from as int, count as int),
{
    if from > s.len() || s.len() - from < count {
        return false;
    }
    let mut i: usize = from;
    while i < from + count
        invariant
            from <= i <= from + count <= s.len(),
            forall|j: int| from <= j < i ==> is_hex_digit(#[trigger] s@[j]),
        decreases from + count - i,
    {
        if !hex_digit(s[i]) {
            return false;
        }
        i = i + 1;
    }
    true
}

/// Decides which numeric escape, if any, begins at `s[at]`.
pub fn uchar_len_at(s: &Vec<char>, at: usize) -> (r: usize)
    ensures
        r == uchar_len(s@, at as int),
{
    if at >= s.len() || s.len() - at < 2 || s[at] != '\\' {
        return 0;
    }
    if s[at + 1] == 'u' && has_hex_run(s, at + 2, 4) {
        6
    } else if s[at + 1] == 'U' && has_hex_run(s, at + 2, 8) {
        10
    } else {
        0
    }
}

/// The number that the hexadecimal digits `s[from..to]` denote.
pub fn hex_value_of(s: &Vec<char>, from: usize, to: usize) -> (r: u32)
    requires
        from <= to <= s.len(),
        to - from <= 8,
        hex_run(s@, from as int, to - from),
    ensures
        r == hex_value(s@.subrange(from as int, to as int)),
{
    let mut value: u64 = 0;
    let mut i: usize = from;
    proof {
        assert(s@.subrange(from as int, from as int) == Seq::<char>::empty());
    }
    while i < to
        invariant
            from <= i <= to <= s.len(),
            to - from <= 8,
            hex_run(s@, from as int, to - from),
            value == hex_value(s@.subrange(from as int, i as int)),
            value < pow16((i - from) as nat),
        decreases to - i,
    {
        let c = s[i];
        assert(is_hex_digit(s@[i as int]));
        let d: u64 = if '0' <= c && c <= '9' {
            (c as u32 - 48) as u64
        } else if 'a' <= c && c <= 'f' {
            (c as u32 - 87) as u64
        } else {
            (c as u32 - 55) as u64
        };
        proof {
            let now = s@.subrange(from as int, i + 1);
            assert(now.drop_last() == s@.subrange(from as int, i as int));
            assert(now.last() == c);
            lemma_pow16_bound((i - from) as nat);
            reveal_with_fuel(pow16, 2);
        }
        value = value * 16 + d;
        i = i + 1;
    }
    proof {
        lemma_pow16_bound((to - from) as nat);
    }
    value as u32
}

/// Sixteen to the power `n`.
pub open spec fn pow16(n: nat) -> nat
    decreases n,
{
    if n == 0 {
        1
    } else {
        16 * pow16((n - 1) as nat)
    }
}

/// Up to eight hexadecimal digits fit in thirty-two bits.
proof fn lemma_pow16_bound(n: nat)
    requires
        n <= 8,
    ensures
        pow16(n) <= 0x1_0000_0000,
        n < 8 ==> 16 * pow16(n) <= 0x1_0000_0000,
{
    reveal_with_fuel(pow16, 10);
}

/// The character that a numeric escape names: `\u` and four hexadecimal
/// digits, or `\U` and eight. `None` where `uchar` is not of that form, or
/// where the number is a surrogate or lies above `0x10FFFF`.
pub fn unescape_uchar(uchar: &str) -> (r: Option<char>)
    ensures
        r == uchar_char(uchar@),
{
    let chars = chars_of(uchar);
    let n = uchar_len_at(&chars, 0);
    if n == 0 || n != chars.len() {
        return None;
    }
    let value = hex_value_of(&chars, 2, n);
    assert(chars@.subrange(2, n as int) == uchar@.skip(2));
    char::from_u32(value)
}

/// What one character of a literal is written as: a quote, a backslash, a
/// line feed, a carriage return and a tab get a backslash and a letter, and
/// every other character stands for itself.
pub open spec fn escaped_char(c: char) -> Seq<char> {
    if c == '"' {
        seq!['\\', '"']
    } else if c == '\\' {
        seq!['\\', '\\']
    } else if c == '\n' {
        seq!['\\', 'n']
    } else if c == '\r' {
        seq!['\\', 'r']
    } else if c == '\t' {
        seq!['\\', 't']
    } else {
        seq![c]
    }
}

/// The escaped form of a text: each character as `escaped_char` writes it.
pub open spec fn escaped(s: Seq<char>) -> Seq<char>
    decreases s.len(),
{
    if s.len() == 0 {
        Seq::empty()
    } else {
        escaped_char(s[0]) + escaped(s.skip(1))
    }
}

/// The character that stands behind a backslash for `c`, if `c` is one of
/// `t b n r f " ' \`.
pub open spec fn echar(c: char) -> Option<char> {
    if c == 't' {
        Some('\t')
    } else if c == 'b' {
        Some('\u{8}')
    } else if c == 'n' {
        Some('\n')
    } else if c == 'r' {
        Some('\r')
    } else if c == 'f' {
        Some('\u{c}')
    } else if c == '"' {
        Some('"')
    } else if c == '\'' {
        Some('\'')
    } else if c == '\\' {
        Some('\\')
    } else {
        None
    }
}

/// The text that an escaped form stands for. A backslash must begin a
/// two-character escape or a numeric escape that names a character; where one
/// does not, there is no such text.
pub open spec fn unescaped(s: Seq<char>) -> Option<Seq<char>>
    decreases s.len(),
{
    if s.len() == 0 {
        Some(Seq::empty())
    } else if s[0] != '\\' {
        match unescaped(s.skip(1)) {
            Some(rest) => Some(seq![s[0]] + rest),
            None => None,
        }
    } else if s.len() >= 2 && echar(s[1]) is Some {
        match unescaped(s.skip(2)) {
            Some(rest) => Some(seq![echar(s[1])->0] + rest),
            None => None,
        }
    } else if uchar_len(s, 0) > 0 {
        let n = uchar_len(s, 0);
        match (uchar_char(s.subrange(0, n)), unescaped(s.skip(n))) {
            (Some(c), Some(rest)) => Some(seq![c] + rest),
            _ => None,
        }
    } else {
        None
    }
}

/// Unescaping undoes escaping: for every text `s`, the escaped form of `s`
/// stands for `s`.
pub proof fn lemma_unescape_escape(s: Seq<char>)
    ensures
        unescaped(escaped(s)) == Some(s),
    decreases s.len(),
{
    if s.len() == 0 {
    } else {
        let c = s[0];
        let rest = escaped(s.skip(1));
        lemma_unescape_escape(s.skip(1));
        let e = escaped(s);
        assert(e == escaped_char(c) + rest);
        if c == '"' || c == '\\' || c == '\n' || c == '\r' || c == '\t' {
            assert(e.skip(2) == rest);
            assert(e[0] == '\\');
            assert(echar(e[1]) == Some(c));
            assert(seq![c] + s.skip(1) == s);
        } else {
            assert(e.skip(1) == rest);
            assert(e[0] == c);
            assert(seq![c] + s.skip(1) == s);
        }
    }
}

/// Escapes a text.
pub fn escape_string(value: &str) -> (r: String)
    ensures
        r@ == escaped(value@),
{
    let chars = chars_of(value);
    let mut out = String::new();
    let mut i: usize = 0;
    assert(chars@.skip(0) == chars@);
    while i < chars.len()
        invariant
            i <= chars.len(),
            escaped(chars@) == out@ + escaped(chars@.skip(i as int)),
        decreases chars.len() - i,
    {
        let c = chars[i];
        proof {
            assert(chars@.skip(i as int).skip(1) == chars@.skip(i + 1));
            assert(chars@.skip(i as int)[0] == c);
        }
        let ghost before = out@;
        if c == '"' {
            out.push('\\');
            out.push('"');
        } else if c == '\\' {
            out.push('\\');
            out.push('\\');
        } else if c == '\n' {
            out.push('\\');
            out.push('n');
        } else if c == '\r' {
            out.push('\\');
            out.push('r');
        } else if c == '\t' {
            out.push('\\');
            out.push('t');
        } else {
            out.push(c);
        }
        assert(out@ == before + escaped_char(c));
        i = i + 1;
    }
    assert(chars@.skip(chars.len() as int) == Seq::<char>::empty());
    out
}

/// The character behind a backslash for `c`.
fn echar_of(c: char) -> (r: Option<char>)
    ensures
        r == echar(c),
{
    if c == 't' {
        Some('\t')
    } else if c == 'b' {
        Some('\u{8}')
    } else if c == 'n' {
        Some('\n')
    } else if c == 'r' {
        Some('\r')
    } else if c == 'f' {
        Some('\u{c}')
    } else if c == '"' {
        Some('"')
    } else if c == '\'' {
        Some('\'')
    } else if c == '\\' {
        Some('\\')
    } else {
        None
    }
}

/// The text that an escaped form stands for, or `None` where a backslash in
/// it begins no escape.
pub fn unescape_string(value: &str) -> (r: Option<String>)
    ensures
        match r {
            Some(text) => unescaped(value@) == Some(text@),
            None => unescaped(value@) is None,
        },
{
    let chars = chars_of(value);
    let mut out = String::new();
    let mut i: usize = 0;
    assert(chars@.skip(0) == chars@);
    while i < chars.len()
        invariant
            i <= chars.len(),
            chars@ == value@,
            unescaped(chars@) == match unescaped(chars@.skip(i as int)) {
                Some(rest) => Some(out@ + rest),
                None => None,
            },
        decreases chars.len() - i,
    {
        let c = chars[i];
        let ghost tail = chars@.skip(i as int);
        let ghost before = out@;
        proof {
            assert(tail[0] == c);
            assert(tail.skip(1) == chars@.skip(i + 1));
        }
        if c != '\\' {
            out.push(c);
            proof {
                if unescaped(tail.skip(1)) is Some {
                    let rest = unescaped(tail.skip(1))->0;
                    assert(before + (seq![c] + rest) == before.push(c) + rest);
                }
            }
            i = i + 1;
        } else {
            let simple: Option<char> = if i + 1 < chars.len() {
                echar_of(chars[i + 1])
            } else {
                None
            };
            match simple {
                Some(d) => {
                    out.push(d);
                    proof {
                        assert(tail[1] == chars@[i + 1]);
                        assert(tail.skip(2) == chars@.skip(i + 2));
                        if unescaped(tail.skip(2)) is Some {
                            let rest = unescaped(tail.skip(2))->0;
                            assert(before + (seq![d] + rest) == before.push(d) + rest);
                        }
                    }
                    i = i + 2;
                },
                None => {
                    let n = uchar_len_at(&chars, i);
                    proof {
                        lemma_uchar_len_skip(chars@, i as int);
                        if tail.len() >= 2 {
                            assert(tail[1] == chars@[i + 1]);
                        }
                    }
                    if n == 0 {
                        return None;
                    }
                    let value = hex_value_of(&chars, i + 2, i + n);
                    proof {
                        let token = tail.subrange(0, n as int);
                        assert(token == chars@.subrange(i as int, i + n));
                        lemma_uchar_token(chars@, i as int);
                        assert(token.skip(2) == chars@.subrange(i + 2, i + n));
                        assert(tail.skip(n as int) == chars@.skip(i + n));
                    }
                    match char::from_u32(value) {
                        Some(d) => {
                            out.push(d);
                            proof {
                                if unescaped(tail.skip(n as int)) is Some {
                                    let rest = unescaped(tail.skip(n as int))->0;
                                    assert(before + (seq![d] + rest) == before.push(d) + rest);
                                }
                            }
                            i = i + n;
                        },
                        None => {
                            return None;
                        },
                    }
                },
            }
        }
    }
    assert(chars@.skip(chars.len() as int) == Seq::<char>::empty());
    assert(out@ + Seq::<char>::empty() == out@);
    Some(out)
}

/// A numeric escape begins at `s[at]` exactly when it begins the rest of `s`
/// from there.
pub proof fn lemma_uchar_len_skip(s: Seq<char>, at: int)
    requires
        0 <= at <= s.len(),
    ensures
        uchar_len(s.skip(at), 0) == uchar_len(s, at),
{
    let t = s.skip(at);
    assert(forall|i: int| 0 <= i < t.len() ==> t[i] == s[at + i]);
    if hex_run(s, at + 2, 4) {
        assert(hex_run(t, 2, 4)) by {
            assert forall|i: int| 2 <= i < 6 implies is_hex_digit(#[trigger] t[i]) by {
                assert(t[i] == s[at + i]);
            }
        }
    }
    if hex_run(t, 2, 4) {
        assert(hex_run(s, at + 2, 4)) by {
            assert forall|i: int| at + 2 <= i < at + 6 implies is_hex_digit(#[trigger] s[i]) by {
                assert(t[i - at] == s[i]);
            }
        }
    }
    if hex_run(s, at + 2, 8) {
        assert(hex_run(t, 2, 8)) by {
            assert forall|i: int| 2 <= i < 10 implies is_hex_digit(#[trigger] t[i]) by {
                assert(t[i] == s[at + i]);
            }
        }
    }
    if hex_run(t, 2, 8) {
        assert(hex_run(s, at + 2, 8)) by {
            assert forall|i: int| at + 2 <= i < at + 10 implies is_hex_digit(#[trigger] s[i]) by {
                assert(t[i - at] == s[i]);
            }
        }
    }
}

/// The numeric escape that begins at `s[at]`, cut out of `s`, is one numeric
/// escape, and its digits denote a number of thirty-two bits.
pub proof fn lemma_uchar_token(s: Seq<char>, at: int)
    requires
        uchar_len(s, at) > 0,
    ensures
        is_uchar(s.subrange(at, at + uchar_len(s, at))),
        hex_value(s.subrange(at, at + uchar_len(s, at)).skip(2)) <= 0xFFFF_FFFF,
{
    let n = uchar_len(s, at);
    let token = s.subrange(at, at + n);
    assert(forall|i: int| 0 <= i < n ==> token[i] == s[at + i]);
    if n == 6 {
        assert(hex_run(token, 2, 4)) by {
            assert forall|i: int| 2 <= i < 6 implies is_hex_digit(#[trigger] token[i]) by {
                assert(token[i] == s[at + i]);
            }
        }
    } else {
        assert(hex_run(token, 2, 8)) by {
            assert forall|i: int| 2 <= i < 10 implies is_hex_digit(#[trigger] token[i]) by {
                assert(token[i] == s[at + i]);
            }
        }
        assert(!(token[1] == 'u'));
    }
    lemma_hex_value_bound(token.skip(2));
    lemma_pow16_bound((n - 2) as nat);
}

/// A string of hexadecimal digits denotes a number below sixteen to the
/// power of its length.
pub proof fn lemma_hex_value_bound(s: Seq<char>)
    requires
        forall|i: int| 0 <= i < s.len() ==> is_hex_digit(#[trigger] s[i]),
    ensures
        hex_value(s) < pow16(s.len()),
    decreases s.len(),
{
    if s.len() > 0 {
        lemma_hex_value_bound(s.drop_last());
        assert(is_hex_digit(s[s.len() - 1]));
    }
}

} // verus!
