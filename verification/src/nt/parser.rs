//! The reader of the line-oriented format.
//!
//! A document is a run of statements, each on a line of its own, with blank
//! lines and comments between them. A statement is a subject, a predicate,
//! an object and a period. A comment begins with `#` and ends with its line.

use crate::error::{Error, ErrorView, Rule};
use crate::escape::{
    echar, hex_run, is_hex_digit, is_uchar, lemma_uchar_len_skip, uchar_char, uchar_len,
    uchar_len_at, unescape_uchar,
};
use crate::graph::{inserted, Graph, GraphView};
use crate::iri::{has_scheme, iri_normal_form, port_out_of_range, Iri};
use crate::literal::{DataType, DataTypeView, Literal, LiteralView};
use crate::statement::{NodeView, ObjectNode, Statement, StatementView, SubjectNode};
use crate::text::{chars_of, push_text, string_of_range};
use regex::Regex;
use vstd::prelude::*;

verus! {

/// The pattern of a numeric escape: `\U` and eight hexadecimal digits, or
/// `\u` and four.
pub const UNICODE_ESC: &'static str = "(\\\\U[[:xdigit:]]{8})|(\\\\u[[:xdigit:]]{4})";

/// Calls `Regex::new` and `Regex::find` of `regex` and cuts the text at the
/// match: what stands before it, the match, and what stands behind it.
///
/// The contract is stated for the pattern of a numeric escape alone. `find`
/// returns the leftmost match, so no numeric escape begins before the one
/// that is returned, and `None` means that the text holds none.
#[verifier::external_body]
fn first_escape(pattern: &str, text: &str) -> (r: Option<(String, String, String)>)
    requires
        pattern@ == UNICODE_ESC@,
    ensures
        match r {
            Some((before, token, after)) => {
                &&& before@ + token@ + after@ == text@
                &&& is_uchar(token@)
                &&& forall|i: int| 0 <= i < before@.len() ==> uchar_len(text@, i) == 0
            },
            None => forall|i: int| 0 <= i < text@.len() ==> uchar_len(text@, i) == 0,
        },
{
    match Regex::new(pattern).unwrap().find(text) {
        Some(found) => Some(
            (
                text[..found.start()].to_string(),
                found.as_str().to_string(),
                text[found.end()..].to_string(),
            ),
        ),
        None => None,
    }
}

/// The text with every numeric escape replaced by the character that it
/// names, or the first numeric escape in it that names none.
pub open spec fn unescaped_iri(s: Seq<char>) -> Result<Seq<char>, Seq<char>>
    decreases s.len(),
{
    if s.len() == 0 {
        Ok(Seq::empty())
    } else {
        let n = uchar_len(s, 0);
        if n > 0 {
            match uchar_char(s.subrange(0, n)) {
                Some(c) => match unescaped_iri(s.skip(n)) {
                    Ok(rest) => Ok(seq![c] + rest),
                    Err(token) => Err(token),
                },
                None => Err(s.subrange(0, n)),
            }
        } else {
            match unescaped_iri(s.skip(1)) {
                Ok(rest) => Ok(seq![s[0]] + rest),
                Err(token) => Err(token),
            }
        }
    }
}

/// `rest` with `head` in front, where there is a `rest`.
pub open spec fn after(head: Seq<char>, rest: Result<Seq<char>, Seq<char>>) -> Result<
    Seq<char>,
    Seq<char>,
> {
    match rest {
        Ok(text) => Ok(head + text),
        Err(token) => Err(token),
    }
}

/// A part of the text in which no numeric escape begins stays as it is.
proof fn lemma_unescaped_plain(head: Seq<char>, tail: Seq<char>)
    requires
        forall|i: int| 0 <= i < head.len() ==> uchar_len(head + tail, i) == 0,
    ensures
        unescaped_iri(head + tail) == after(head, unescaped_iri(tail)),
    decreases head.len(),
{
    let s = head + tail;
    if head.len() == 0 {
        assert(s == tail);
        match unescaped_iri(tail) {
            Ok(text) => {
                assert(head + text == text);
            },
            Err(_) => {},
        }
    } else {
        assert(uchar_len(s, 0) == 0);
        assert(s.skip(1) == head.skip(1) + tail);
        assert forall|i: int| 0 <= i < head.skip(1).len() implies uchar_len(
            head.skip(1) + tail,
            i,
        ) == 0 by {
            lemma_uchar_len_skip(s, 1);
            lemma_uchar_len_shift(s, 1, i);
            assert(uchar_len(s, i + 1) == 0);
        }
        lemma_unescaped_plain(head.skip(1), tail);
        match unescaped_iri(tail) {
            Ok(text) => {
                assert(seq![s[0]] + (head.skip(1) + text) == head + text);
            },
            Err(_) => {},
        }
    }
}

/// A numeric escape begins at `s[from + i]` exactly when it begins at the
/// `i`-th character of the rest of `s` from `from`.
proof fn lemma_uchar_len_shift(s: Seq<char>, from: int, i: int)
    requires
        0 <= from <= s.len(),
        0 <= i,
    ensures
        uchar_len(s.skip(from), i) == uchar_len(s, from + i),
{
    if from + i <= s.len() {
        lemma_uchar_len_skip(s, from + i);
        lemma_uchar_len_skip(s.skip(from), i);
        assert(s.skip(from).skip(i) == s.skip(from + i));
    }
}

/// A numeric escape that stands at the front of a text begins there.
proof fn lemma_uchar_front(token: Seq<char>, tail: Seq<char>)
    requires
        is_uchar(token),
    ensures
        uchar_len(token + tail, 0) == token.len(),
        (token + tail).subrange(0, token.len() as int) == token,
        (token + tail).skip(token.len() as int) == tail,
{
    let s = token + tail;
    assert(forall|i: int| 0 <= i < token.len() ==> s[i] == token[i]);
    if token.len() == 6 {
        assert(hex_run(token, 2, 4));
        assert(hex_run(s, 2, 4)) by {
            assert forall|i: int| 2 <= i < 6 implies is_hex_digit(#[trigger] s[i]) by {
                assert(s[i] == token[i]);
            }
        }
    } else {
        assert(hex_run(token, 2, 8));
        assert(!(token[1] == 'u' && hex_run(token, 2, 4)));
        assert(token[1] == 'U');
        assert(hex_run(s, 2, 8)) by {
            assert forall|i: int| 2 <= i < 10 implies is_hex_digit(#[trigger] s[i]) by {
                assert(s[i] == token[i]);
            }
        }
    }
    assert(s.subrange(0, token.len() as int) =~= token);
    assert(s.skip(token.len() as int) =~= tail);
}

/// Replaces every numeric escape in the text by the character that it
/// names. Where one names no character, that escape is reported.
pub fn unescape_iri(iri: &str) -> (r: Result<String, Error>)
    ensures
        match r {
            Ok(text) => unescaped_iri(iri@) == Ok::<Seq<char>, Seq<char>>(text@),
            Err(e) => unescaped_iri(iri@) matches Err(token) && e@ == ErrorView::InvalidEscape(
                token,
            ),
        },
{
    let mut out = String::new();
    let mut rest: String = iri.to_owned();
    loop
        invariant
            unescaped_iri(iri@) == after(out@, unescaped_iri(rest@)),
        decreases rest@.len(),
    {
        match first_escape(UNICODE_ESC, rest.as_str()) {
            Some((before, token, behind)) => {
                proof {
                    lemma_uchar_front(token@, behind@);
                    assert(rest@ == before@ + (token@ + behind@));
                    lemma_unescaped_plain(before@, token@ + behind@);
                }
                match unescape_uchar(token.as_str()) {
                    Some(c) => {
                        let ghost seen = out@;
                        push_text(&mut out, before.as_str());
                        out.push(c);
                        proof {
                            match unescaped_iri(behind@) {
                                Ok(text) => {
                                    assert(seen + (before@ + (seq![c] + text)) == (seen
                                        + before@).push(c) + text);
                                },
                                Err(_) => {},
                            }
                        }
                        rest = behind;
                    },
                    None => {
                        return Err(Error::InvalidEscape(token));
                    },
                }
            },
            None => {
                proof {
                    assert(rest@ == rest@ + Seq::<char>::empty());
                    lemma_unescaped_plain(rest@, Seq::empty());
                }
                push_text(&mut out, rest.as_str());
                return Ok(out);
            },
        }
    }
}

/// Whether `c` is a space or a tab.
pub open spec fn is_ws(c: char) -> bool {
    c == ' ' || c == '\t'
}

/// Whether `c` ends a line.
pub open spec fn is_eol(c: char) -> bool {
    c == '\n' || c == '\r'
}

/// The first index at or after `i` that holds neither a space nor a tab.
pub open spec fn skip_ws(s: Seq<char>, i: int) -> int
    decreases s.len() - i,
{
    if 0 <= i < s.len() && is_ws(s[i]) {
        skip_ws(s, i + 1)
    } else {
        i
    }
}

/// The first index at or after `i` that ends a line, or the length of `s`.
pub open spec fn line_end(s: Seq<char>, i: int) -> int
    decreases s.len() - i,
{
    if 0 <= i < s.len() && !is_eol(s[i]) {
        line_end(s, i + 1)
    } else if i < 0 || i > s.len() {
        s.len() as int
    } else {
        i
    }
}

/// The first index at or after `i` at which something other than spaces,
/// tabs, line ends and comments begins.
pub open spec fn skip_blank(s: Seq<char>, i: int) -> int
    decreases s.len() - i, 0nat,
{
    if 0 <= i < s.len() {
        if is_ws(s[i]) || is_eol(s[i]) {
            skip_blank(s, i + 1)
        } else if s[i] == '#' {
            skip_comment(s, i + 1)
        } else {
            i
        }
    } else {
        i
    }
}

/// `skip_blank`, from inside a comment.
pub open spec fn skip_comment(s: Seq<char>, i: int) -> int
    decreases s.len() - i, 1nat,
{
    if 0 <= i < s.len() {
        if is_eol(s[i]) {
            skip_blank(s, i)
        } else {
            skip_comment(s, i + 1)
        }
    } else {
        i
    }
}

/// The error of a production that does not match at `position`.
pub open spec fn syntax_error(s: Seq<char>, rule: Rule, position: int) -> ErrorView {
    ErrorView::Syntax {
        rule,
        position: position as nat,
        found: s.subrange(position, line_end(s, position)),
    }
}

/// Whether `c` may stand in an IRI between angle brackets as it is.
pub open spec fn is_iri_char(c: char) -> bool {
    c > ' ' && c != '<' && c != '>' && c != '"' && c != '{' && c != '}' && c != '|' && c != '^'
        && c != '`' && c != '\\'
}

/// Where the IRI ends whose inside is read from `j` on: behind the closing
/// bracket. `None` where a character stands that an IRI cannot hold, or a
/// backslash that begins no numeric escape, or where the bracket is missing.
pub open spec fn iri_end(s: Seq<char>, j: int) -> Option<int>
    decreases s.len() - j,
{
    if 0 <= j < s.len() {
        if s[j] == '>' {
            Some(j + 1)
        } else if s[j] == '\\' {
            if uchar_len(s, j) > 0 {
                iri_end(s, j + uchar_len(s, j))
            } else {
                None
            }
        } else if is_iri_char(s[j]) {
            iri_end(s, j + 1)
        } else {
            None
        }
    } else {
        None
    }
}

/// Where the quoted string ends whose inside is read from `j` on: behind
/// the closing quote. `None` where a line ends inside the string, where a
/// backslash begins no escape, or where the quote is missing.
pub open spec fn string_end(s: Seq<char>, j: int) -> Option<int>
    decreases s.len() - j,
{
    if 0 <= j < s.len() {
        if s[j] == '"' {
            Some(j + 1)
        } else if s[j] == '\\' {
            if j + 1 < s.len() && echar(s[j + 1]) is Some {
                string_end(s, j + 2)
            } else if uchar_len(s, j) > 0 {
                string_end(s, j + uchar_len(s, j))
            } else {
                None
            }
        } else if is_eol(s[j]) {
            None
        } else {
            string_end(s, j + 1)
        }
    } else {
        None
    }
}

/// Whether `c` is a letter of a name, as the format counts letters.
pub open spec fn is_pn_chars_base(c: char) -> bool {
    ('A' <= c && c <= 'Z') || ('a' <= c && c <= 'z') || ('\u{C0}' <= c && c <= '\u{D6}') || (
    '\u{D8}' <= c && c <= '\u{F6}') || ('\u{F8}' <= c && c <= '\u{2FF}') || ('\u{370}' <= c && c
        <= '\u{37D}') || ('\u{37F}' <= c && c <= '\u{1FFF}') || ('\u{200C}' <= c && c
        <= '\u{200D}') || ('\u{2070}' <= c && c <= '\u{218F}') || ('\u{2C00}' <= c && c
        <= '\u{2FEF}') || ('\u{3001}' <= c && c <= '\u{D7FF}') || ('\u{F900}' <= c && c
        <= '\u{FDCF}') || ('\u{FDF0}' <= c && c <= '\u{FFFD}') || ('\u{10000}' <= c && c
        <= '\u{EFFFF}')
}

/// Whether `c` may begin the label of a blank node.
pub open spec fn is_label_start(c: char) -> bool {
    is_pn_chars_base(c) || c == '_' || c == ':' || ('0' <= c && c <= '9')
}

/// Whether `c` may stand inside the label of a blank node and at its end.
pub open spec fn is_pn_chars(c: char) -> bool {
    is_pn_chars_base(c) || c == '_' || c == ':' || c == '-' || ('0' <= c && c <= '9') || c
        == '\u{B7}' || ('\u{300}' <= c && c <= '\u{36F}') || ('\u{203F}' <= c && c <= '\u{2040}')
}

/// Where the label ends that is read from `j` on, `last` being the end of
/// the longest label found so far: a label holds letters and periods and
/// does not end with a period.
pub open spec fn label_end(s: Seq<char>, j: int, last: int) -> int
    decreases s.len() - j,
{
    if 0 <= j < s.len() {
        if is_pn_chars(s[j]) {
            label_end(s, j + 1, j + 1)
        } else if s[j] == '.' {
            label_end(s, j + 1, last)
        } else {
            last
        }
    } else {
        last
    }
}

/// Whether `c` is a letter of the basic alphabet.
pub open spec fn is_alpha(c: char) -> bool {
    ('A' <= c && c <= 'Z') || ('a' <= c && c <= 'z')
}

/// Whether `c` is a letter of the basic alphabet or a digit.
pub open spec fn is_alnum(c: char) -> bool {
    is_alpha(c) || ('0' <= c && c <= '9')
}

/// The first index at or after `j` that holds no letter.
pub open spec fn alpha_end(s: Seq<char>, j: int) -> int
    decreases s.len() - j,
{
    if 0 <= j < s.len() && is_alpha(s[j]) {
        alpha_end(s, j + 1)
    } else {
        j
    }
}

/// The first index at or after `j` that holds neither a letter nor a
/// digit.
pub open spec fn alnum_end(s: Seq<char>, j: int) -> int
    decreases s.len() - j,
{
    if 0 <= j < s.len() && is_alnum(s[j]) {
        alnum_end(s, j + 1)
    } else {
        j
    }
}

/// Where the subtags end that are read from `j` on: each is a hyphen and
/// one or more letters or digits.
pub open spec fn subtags_end(s: Seq<char>, j: int) -> int
    decreases s.len() - j,
{
    if 0 <= j && j + 1 < s.len() && s[j] == '-' && is_alnum(s[j + 1]) {
        proof {
            lemma_alnum_end(s, j + 1);
        }
        subtags_end(s, alnum_end(s, j + 1))
    } else {
        j
    }
}

/// A run of letters and digits ends inside the text, and behind its first
/// character where it has one.
pub proof fn lemma_alnum_end(s: Seq<char>, j: int)
    requires
        0 <= j <= s.len(),
    ensures
        j <= alnum_end(s, j) <= s.len(),
        0 <= j < s.len() && is_alnum(s[j]) ==> j < alnum_end(s, j),
    decreases s.len() - j,
{
    if j < s.len() && is_alnum(s[j]) {
        lemma_alnum_end(s, j + 1);
    }
}

/// Where spaces and tabs end.
fn skip_ws_at(s: &Vec<char>, i: usize) -> (r: usize)
    requires
        i <= s.len(),
    ensures
        r == skip_ws(s@, i as int),
        i <= r <= s.len(),
{
    let mut j: usize = i;
    while j < s.len() && (s[j] == ' ' || s[j] == '\t')
        invariant
            i <= j <= s.len(),
            skip_ws(s@, i as int) == skip_ws(s@, j as int),
        decreases s.len() - j,
    {
        j = j + 1;
    }
    j
}

/// Where the line ends.
fn line_end_at(s: &Vec<char>, i: usize) -> (r: usize)
    requires
        i <= s.len(),
    ensures
        r == line_end(s@, i as int),
        i <= r <= s.len(),
{
    let mut j: usize = i;
    while j < s.len() && !(s[j] == '\n' || s[j] == '\r')
        invariant
            i <= j <= s.len(),
            line_end(s@, i as int) == line_end(s@, j as int),
        decreases s.len() - j,
    {
        j = j + 1;
    }
    j
}

/// Where blank lines and comments end.
fn skip_blank_at(s: &Vec<char>, i: usize) -> (r: usize)
    requires
        i <= s.len(),
    ensures
        r == skip_blank(s@, i as int),
        i <= r <= s.len(),
{
    let mut j: usize = i;
    let mut comment: bool = false;
    loop
        invariant
            i <= j <= s.len(),
            skip_blank(s@, i as int) == if comment {
                skip_comment(s@, j as int)
            } else {
                skip_blank(s@, j as int)
            },
        decreases s.len() - j, if comment { 1nat } else { 0nat },
    {
        if j >= s.len() {
            return j;
        }
        let c = s[j];
        if comment {
            if c == '\n' || c == '\r' {
                comment = false;
            } else {
                j = j + 1;
            }
        } else if c == ' ' || c == '\t' || c == '\n' || c == '\r' {
            j = j + 1;
        } else if c == '#' {
            comment = true;
            j = j + 1;
        } else {
            return j;
        }
    }
}

/// The error of a production that does not match at `position`.
fn syntax_error_at(s: &Vec<char>, rule: Rule, position: usize) -> (e: Error)
    requires
        position <= s.len(),
    ensures
        e@ == syntax_error(s@, rule, position as int),
{
    let end = line_end_at(s, position);
    Error::Syntax { rule, position, found: string_of_range(s, position, end) }
}

/// Decides `is_iri_char`.
pub(crate) fn iri_char(c: char) -> (r: bool)
    ensures
        r == is_iri_char(c),
{
    c > ' ' && c != '<' && c != '>' && c != '"' && c != '{' && c != '}' && c != '|' && c != '^'
        && c != '`' && c != '\\'
}

/// Where the IRI ends whose inside begins at `from`.
fn iri_end_at(s: &Vec<char>, from: usize) -> (r: Option<usize>)
    requires
        from <= s.len(),
    ensures
        match r {
            Some(end) => iri_end(s@, from as int) == Some(end as int) && from < end <= s.len()
                && s@[end - 1] == '>',
            None => iri_end(s@, from as int) is None,
        },
{
    let mut j: usize = from;
    while j < s.len()
        invariant
            from <= j <= s.len(),
            iri_end(s@, from as int) == iri_end(s@, j as int),
        decreases s.len() - j,
    {
        let c = s[j];
        if c == '>' {
            return Some(j + 1);
        } else if c == '\\' {
            let n = uchar_len_at(s, j);
            if n == 0 {
                return None;
            }
            j = j + n;
        } else if iri_char(c) {
            j = j + 1;
        } else {
            return None;
        }
    }
    None
}

/// Where the quoted string ends whose inside begins at `from`.
fn string_end_at(s: &Vec<char>, from: usize) -> (r: Option<usize>)
    requires
        from <= s.len(),
    ensures
        match r {
            Some(end) => string_end(s@, from as int) == Some(end as int) && from < end <= s.len(),
            None => string_end(s@, from as int) is None,
        },
{
    let mut j: usize = from;
    while j < s.len()
        invariant
            from <= j <= s.len(),
            string_end(s@, from as int) == string_end(s@, j as int),
        decreases s.len() - j,
    {
        let c = s[j];
        if c == '"' {
            return Some(j + 1);
        } else if c == '\\' {
            let simple = j + 1 < s.len() && is_echar(s[j + 1]);
            if simple {
                j = j + 2;
            } else {
                let n = uchar_len_at(s, j);
                if n == 0 {
                    return None;
                }
                j = j + n;
            }
        } else if c == '\n' || c == '\r' {
            return None;
        } else {
            j = j + 1;
        }
    }
    None
}

/// Whether a backslash and `c` are an escape.
pub(crate) fn is_echar(c: char) -> (r: bool)
    ensures
        r == echar(c) is Some,
{
    c == 't' || c == 'b' || c == 'n' || c == 'r' || c == 'f' || c == '"' || c == '\'' || c == '\\'
}

/// Decides `is_pn_chars_base`.
fn pn_chars_base(c: char) -> (r: bool)
    ensures
        r == is_pn_chars_base(c),
{
    ('A' <= c && c <= 'Z') || ('a' <= c && c <= 'z') || ('\u{C0}' <= c && c <= '\u{D6}') || (
    '\u{D8}' <= c && c <= '\u{F6}') || ('\u{F8}' <= c && c <= '\u{2FF}') || ('\u{370}' <= c && c
        <= '\u{37D}') || ('\u{37F}' <= c && c <= '\u{1FFF}') || ('\u{200C}' <= c && c
        <= '\u{200D}') || ('\u{2070}' <= c && c <= '\u{218F}') || ('\u{2C00}' <= c && c
        <= '\u{2FEF}') || ('\u{3001}' <= c && c <= '\u{D7FF}') || ('\u{F900}' <= c && c
        <= '\u{FDCF}') || ('\u{FDF0}' <= c && c <= '\u{FFFD}') || ('\u{10000}' <= c && c
        <= '\u{EFFFF}')
}

/// Decides `is_label_start`.
pub(crate) fn label_start(c: char) -> (r: bool)
    ensures
        r == is_label_start(c),
{
    pn_chars_base(c) || c == '_' || c == ':' || ('0' <= c && c <= '9')
}

/// Decides `is_pn_chars`.
pub(crate) fn pn_chars(c: char) -> (r: bool)
    ensures
        r == is_pn_chars(c),
{
    pn_chars_base(c) || c == '_' || c == ':' || c == '-' || ('0' <= c && c <= '9') || c
        == '\u{B7}' || ('\u{300}' <= c && c <= '\u{36F}') || ('\u{203F}' <= c && c <= '\u{2040}')
}

/// Where the label ends whose second character would stand at `from`.
fn label_end_at(s: &Vec<char>, from: usize) -> (r: usize)
    requires
        from <= s.len(),
    ensures
        r == label_end(s@, from as int, from as int),
        from <= r <= s.len(),
{
    let mut j: usize = from;
    let mut last: usize = from;
    while j < s.len() && (pn_chars(s[j]) || s[j] == '.')
        invariant
            from <= last <= j <= s.len(),
            label_end(s@, from as int, from as int) == label_end(s@, j as int, last as int),
        decreases s.len() - j,
    {
        if s[j] != '.' {
            last = j + 1;
        }
        j = j + 1;
    }
    last
}

/// Decides `is_alpha`.
fn alpha(c: char) -> (r: bool)
    ensures
        r == is_alpha(c),
{
    ('A' <= c && c <= 'Z') || ('a' <= c && c <= 'z')
}

/// Decides `is_alnum`.
fn alnum(c: char) -> (r: bool)
    ensures
        r == is_alnum(c),
{
    alpha(c) || ('0' <= c && c <= '9')
}

/// Where the letters end.
pub(crate) fn alpha_end_at(s: &Vec<char>, from: usize) -> (r: usize)
    requires
        from <= s.len(),
    ensures
        r == alpha_end(s@, from as int),
        from <= r <= s.len(),
{
    let mut j: usize = from;
    while j < s.len() && alpha(s[j])
        invariant
            from <= j <= s.len(),
            alpha_end(s@, from as int) == alpha_end(s@, j as int),
        decreases s.len() - j,
    {
        j = j + 1;
    }
    j
}

/// Where the letters and digits end.
pub(crate) fn alnum_end_at(s: &Vec<char>, from: usize) -> (r: usize)
    requires
        from <= s.len(),
    ensures
        r == alnum_end(s@, from as int),
        from <= r <= s.len(),
{
    let mut j: usize = from;
    while j < s.len() && alnum(s[j])
        invariant
            from <= j <= s.len(),
            alnum_end(s@, from as int) == alnum_end(s@, j as int),
        decreases s.len() - j,
    {
        j = j + 1;
    }
    j
}

/// Where the subtags end.
pub(crate) fn subtags_end_at(s: &Vec<char>, from: usize) -> (r: usize)
    requires
        from <= s.len(),
    ensures
        r == subtags_end(s@, from as int),
        from <= r <= s.len(),
{
    let mut j: usize = from;
    while j < s.len() && s.len() - j >= 2 && s[j] == '-' && alnum(s[j + 1])
        invariant
            from <= j <= s.len(),
            subtags_end(s@, from as int) == subtags_end(s@, j as int),
        decreases s.len() - j,
    {
        proof {
            lemma_alnum_end(s@, j + 1);
        }
        j = alnum_end_at(s, j + 1);
    }
    j
}

/// The IRI that a text between angle brackets stands for: the numeric
/// escapes are replaced, `rdftk_iri` reads the result, and the IRI must have
/// a scheme.
pub open spec fn absolute_iri(text: Seq<char>) -> Result<Seq<char>, ErrorView> {
    match unescaped_iri(text) {
        Err(token) => Err(ErrorView::InvalidEscape(token)),
        Ok(plain) => if port_out_of_range(plain) || iri_normal_form(plain) is None {
            Err(ErrorView::InvalidIri(plain))
        } else if !has_scheme(plain) {
            Err(ErrorView::AbsoluteIriExpected(plain))
        } else {
            Ok(iri_normal_form(plain)->0)
        },
    }
}

/// An IRI between angle brackets at `i`: the IRI and where it ends.
pub open spec fn read_iri_ref(s: Seq<char>, i: int) -> Result<(Seq<char>, int), ErrorView> {
    if 0 <= i < s.len() && s[i] == '<' && iri_end(s, i + 1) is Some {
        let end = iri_end(s, i + 1)->0;
        match absolute_iri(s.subrange(i + 1, end - 1)) {
            Ok(iri) => Ok((iri, end)),
            Err(e) => Err(e),
        }
    } else {
        Err(syntax_error(s, Rule::IriRef, i))
    }
}

/// A blank node at `i`: its label, without `_:`, and where it ends.
pub open spec fn read_blank(s: Seq<char>, i: int) -> Result<(Seq<char>, int), ErrorView> {
    if 0 <= i && i + 2 < s.len() && s[i] == '_' && s[i + 1] == ':' && is_label_start(s[i + 2]) {
        let end = label_end(s, i + 3, i + 3);
        Ok((s.subrange(i + 2, end), end))
    } else {
        Err(syntax_error(s, Rule::BlankNode, i))
    }
}

/// A subject at `i`: an IRI or a blank node.
pub open spec fn read_subject(s: Seq<char>, i: int) -> Result<(NodeView, int), ErrorView> {
    if 0 <= i < s.len() && s[i] == '<' {
        match read_iri_ref(s, i) {
            Ok((iri, end)) => Ok((NodeView::Named(iri), end)),
            Err(e) => Err(e),
        }
    } else if 0 <= i < s.len() && s[i] == '_' {
        match read_blank(s, i) {
            Ok((label, end)) => Ok((NodeView::Blank(label), end)),
            Err(e) => Err(e),
        }
    } else {
        Err(syntax_error(s, Rule::Subject, i))
    }
}

/// A predicate at `i`: an IRI.
pub open spec fn read_predicate(s: Seq<char>, i: int) -> Result<(Seq<char>, int), ErrorView> {
    if 0 <= i < s.len() && s[i] == '<' {
        read_iri_ref(s, i)
    } else {
        Err(syntax_error(s, Rule::Predicate, i))
    }
}

/// A quoted string at `i`: what stands between the quotes, as it stands,
/// and where the string ends.
pub open spec fn read_string(s: Seq<char>, i: int) -> Result<(Seq<char>, int), ErrorView> {
    if 0 <= i < s.len() && s[i] == '"' && string_end(s, i + 1) is Some {
        let end = string_end(s, i + 1)->0;
        Ok((s.subrange(i + 1, end - 1), end))
    } else {
        Err(syntax_error(s, Rule::QuotedString, i))
    }
}

/// A language tag at `i`: the tag, without `@`, and where it ends. A tag is
/// one or more letters, and then subtags.
pub open spec fn read_lang_tag(s: Seq<char>, i: int) -> Result<(Seq<char>, int), ErrorView> {
    if 0 <= i < s.len() && s[i] == '@' && alpha_end(s, i + 1) > i + 1 {
        let end = subtags_end(s, alpha_end(s, i + 1));
        Ok((s.subrange(i + 1, end), end))
    } else {
        Err(syntax_error(s, Rule::LangTag, i))
    }
}

/// A literal at `i`: a quoted string, and behind it `^^` and the IRI of a
/// datatype, or a language tag, or nothing. The datatype is kept as the IRI
/// that stands there.
pub open spec fn read_literal(s: Seq<char>, i: int) -> Result<(LiteralView, int), ErrorView> {
    match read_string(s, i) {
        Err(e) => Err(e),
        Ok((form, end)) => if end + 1 < s.len() && s[end] == '^' && s[end + 1] == '^' {
            match read_iri_ref(s, end + 2) {
                Ok((iri, after)) => Ok(
                    (LiteralView::typed(form, DataTypeView::Other(iri)), after),
                ),
                Err(e) => Err(e),
            }
        } else if end < s.len() && s[end] == '@' {
            match read_lang_tag(s, end) {
                Ok((tag, after)) => Ok((LiteralView::tagged(form, tag), after)),
                Err(e) => Err(e),
            }
        } else {
            Ok((LiteralView::plain(form), end))
        },
    }
}

/// An object at `i`: an IRI, a blank node or a literal.
pub open spec fn read_object(s: Seq<char>, i: int) -> Result<(NodeView, int), ErrorView> {
    if 0 <= i < s.len() && s[i] == '<' {
        match read_iri_ref(s, i) {
            Ok((iri, end)) => Ok((NodeView::Named(iri), end)),
            Err(e) => Err(e),
        }
    } else if 0 <= i < s.len() && s[i] == '_' {
        match read_blank(s, i) {
            Ok((label, end)) => Ok((NodeView::Blank(label), end)),
            Err(e) => Err(e),
        }
    } else if 0 <= i < s.len() && s[i] == '"' {
        match read_literal(s, i) {
            Ok((literal, end)) => Ok((NodeView::Literal(literal), end)),
            Err(e) => Err(e),
        }
    } else {
        Err(syntax_error(s, Rule::Object, i))
    }
}

/// A statement at `i`: a subject, a predicate, an object and a period, with
/// spaces and tabs between them as one likes.
pub open spec fn read_triple(s: Seq<char>, i: int) -> Result<(StatementView, int), ErrorView> {
    match read_subject(s, i) {
        Err(e) => Err(e),
        Ok((subject, a)) => match read_predicate(s, skip_ws(s, a)) {
            Err(e) => Err(e),
            Ok((predicate, b)) => match read_object(s, skip_ws(s, b)) {
                Err(e) => Err(e),
                Ok((object, c)) => {
                    let d = skip_ws(s, c);
                    if 0 <= d < s.len() && s[d] == '.' {
                        Ok((StatementView { subject, predicate, object }, d + 1))
                    } else {
                        Err(syntax_error(s, Rule::Triple, d))
                    }
                },
            },
        },
    }
}

/// Where the rest of a line ends that holds nothing but spaces, tabs and a
/// comment.
pub open spec fn line_tail(s: Seq<char>, i: int) -> int {
    let w = skip_ws(s, i);
    if 0 <= w < s.len() && s[w] == '#' {
        line_end(s, w)
    } else {
        w
    }
}

/// Spaces and tabs end inside the text.
pub proof fn lemma_skip_ws(s: Seq<char>, i: int)
    requires
        0 <= i <= s.len(),
    ensures
        i <= skip_ws(s, i) <= s.len(),
    decreases s.len() - i,
{
    if i < s.len() && is_ws(s[i]) {
        lemma_skip_ws(s, i + 1);
    }
}

/// A line ends inside the text.
pub proof fn lemma_line_end(s: Seq<char>, i: int)
    requires
        0 <= i <= s.len(),
    ensures
        i <= line_end(s, i) <= s.len(),
    decreases s.len() - i,
{
    if i < s.len() && !is_eol(s[i]) {
        lemma_line_end(s, i + 1);
    }
}

/// The rest of a line ends inside the text.
pub proof fn lemma_line_tail(s: Seq<char>, i: int)
    requires
        0 <= i <= s.len(),
    ensures
        i <= line_tail(s, i) <= s.len(),
{
    lemma_skip_ws(s, i);
    lemma_line_end(s, skip_ws(s, i));
}

/// An IRI ends inside the text, behind where its inside begins.
pub proof fn lemma_iri_end(s: Seq<char>, j: int)
    requires
        0 <= j <= s.len(),
    ensures
        iri_end(s, j) matches Some(end) ==> j < end <= s.len(),
    decreases s.len() - j,
{
    if j < s.len() {
        if s[j] == '>' {
        } else if s[j] == '\\' {
            if uchar_len(s, j) > 0 {
                lemma_iri_end(s, j + uchar_len(s, j));
            }
        } else if is_iri_char(s[j]) {
            lemma_iri_end(s, j + 1);
        }
    }
}

/// A quoted string ends inside the text, behind where its inside begins.
pub proof fn lemma_string_end(s: Seq<char>, j: int)
    requires
        0 <= j <= s.len(),
    ensures
        string_end(s, j) matches Some(end) ==> j < end <= s.len(),
    decreases s.len() - j,
{
    if j < s.len() {
        if s[j] == '"' {
        } else if s[j] == '\\' {
            if j + 1 < s.len() && echar(s[j + 1]) is Some {
                lemma_string_end(s, j + 2);
            } else if uchar_len(s, j) > 0 {
                lemma_string_end(s, j + uchar_len(s, j));
            }
        } else if is_eol(s[j]) {
        } else {
            lemma_string_end(s, j + 1);
        }
    }
}

/// A label ends inside the text.
pub proof fn lemma_label_end(s: Seq<char>, j: int, last: int)
    requires
        0 <= last <= j <= s.len(),
    ensures
        last <= label_end(s, j, last) <= s.len(),
    decreases s.len() - j,
{
    if j < s.len() {
        if is_pn_chars(s[j]) {
            lemma_label_end(s, j + 1, j + 1);
        } else if s[j] == '.' {
            lemma_label_end(s, j + 1, last);
        }
    }
}

/// A run of letters ends inside the text.
pub proof fn lemma_alpha_end(s: Seq<char>, j: int)
    requires
        0 <= j <= s.len(),
    ensures
        j <= alpha_end(s, j) <= s.len(),
    decreases s.len() - j,
{
    if j < s.len() && is_alpha(s[j]) {
        lemma_alpha_end(s, j + 1);
    }
}

/// Subtags end inside the text.
pub proof fn lemma_subtags_end(s: Seq<char>, j: int)
    requires
        0 <= j <= s.len(),
    ensures
        j <= subtags_end(s, j) <= s.len(),
    decreases s.len() - j,
{
    if j + 1 < s.len() && s[j] == '-' && is_alnum(s[j + 1]) {
        lemma_alnum_end(s, j + 1);
        lemma_subtags_end(s, alnum_end(s, j + 1));
    }
}

/// An IRI between angle brackets ends inside the text, behind its
/// beginning.
pub proof fn lemma_read_iri_ref(s: Seq<char>, i: int)
    ensures
        read_iri_ref(s, i) matches Ok((_, end)) ==> 0 <= i < end <= s.len(),
{
    if 0 <= i < s.len() {
        lemma_iri_end(s, i + 1);
    }
}

/// A blank node ends inside the text, behind its beginning.
pub proof fn lemma_read_blank(s: Seq<char>, i: int)
    ensures
        read_blank(s, i) matches Ok((_, end)) ==> 0 <= i < end <= s.len(),
{
    if 0 <= i && i + 2 < s.len() {
        lemma_label_end(s, i + 3, i + 3);
    }
}

/// A literal ends inside the text, behind its beginning.
pub proof fn lemma_read_literal(s: Seq<char>, i: int)
    ensures
        read_literal(s, i) matches Ok((_, end)) ==> 0 <= i < end <= s.len(),
{
    if 0 <= i < s.len() {
        lemma_string_end(s, i + 1);
        if read_string(s, i) is Ok {
            let end = read_string(s, i)->Ok_0.1;
            lemma_read_iri_ref(s, end + 2);
            if end < s.len() {
                lemma_alpha_end(s, end + 1);
                lemma_subtags_end(s, alpha_end(s, end + 1));
            }
        }
    }
}

/// A statement ends inside the text, behind its beginning.
pub proof fn lemma_read_triple(s: Seq<char>, i: int)
    ensures
        read_triple(s, i) matches Ok((_, end)) ==> 0 <= i < end <= s.len(),
{
    lemma_read_iri_ref(s, i);
    lemma_read_blank(s, i);
    if read_subject(s, i) is Ok {
        let a = read_subject(s, i)->Ok_0.1;
        lemma_skip_ws(s, a);
        lemma_read_iri_ref(s, skip_ws(s, a));
        if read_predicate(s, skip_ws(s, a)) is Ok {
            let b = read_predicate(s, skip_ws(s, a))->Ok_0.1;
            lemma_skip_ws(s, b);
            let o = skip_ws(s, b);
            lemma_read_iri_ref(s, o);
            lemma_read_blank(s, o);
            lemma_read_literal(s, o);
            if read_object(s, o) is Ok {
                let c = read_object(s, o)->Ok_0.1;
                lemma_skip_ws(s, c);
            }
        }
    }
}

/// The statements of the document from `i` on, in their order. Nothing but
/// a comment may follow a statement on its line.
pub open spec fn read_doc(s: Seq<char>, i: int) -> Result<Seq<StatementView>, ErrorView>
    decreases s.len() - i,
{
    let p = skip_blank(s, i);
    if 0 <= i <= p < s.len() {
        match read_triple(s, p) {
            Err(e) => Err(e),
            Ok((statement, q)) => {
                let r = line_tail(s, q);
                if r < s.len() && !is_eol(s[r]) {
                    Err(syntax_error(s, Rule::NtriplesDoc, r))
                } else {
                    proof {
                        lemma_read_triple(s, p);
                        lemma_line_tail(s, q);
                    }
                    match read_doc(s, r) {
                        Ok(rest) => Ok(seq![statement] + rest),
                        Err(e) => Err(e),
                    }
                }
            },
        }
    } else {
        Ok(Seq::empty())
    }
}

/// The statements of a graph to which the first `upto` of `statements` were
/// added one after the other.
pub open spec fn inserted_all(statements: Seq<StatementView>, upto: int) -> Seq<StatementView>
    decreases upto,
{
    if upto <= 0 || upto > statements.len() {
        Seq::empty()
    } else {
        inserted(inserted_all(statements, upto - 1), statements[upto - 1])
    }
}

/// What a document is read as: the graph of its statements, or the first
/// error in it.
pub open spec fn read_graph(s: Seq<char>) -> Result<GraphView, ErrorView> {
    match read_doc(s, 0) {
        Ok(statements) => Ok(
            GraphView {
                statements: inserted_all(statements, statements.len() as int),
                mappings: Seq::empty(),
                name: None,
            },
        ),
        Err(e) => Err(e),
    }
}

/// An IRI between angle brackets.
pub fn iri_ref(input: &Vec<char>, position: usize) -> (r: Result<(Iri, usize), Error>)
    requires
        position <= input.len(),
    ensures
        match r {
            Ok((iri, end)) => read_iri_ref(input@, position as int) == Ok::<
                (Seq<char>, int),
                ErrorView,
            >((iri@, end as int)) && position < end <= input.len() && !iri.relative(),
            Err(e) => read_iri_ref(input@, position as int) == Err::<(Seq<char>, int), ErrorView>(
                e@,
            ),
        },
{
    if position >= input.len() || input[position] != '<' {
        return Err(syntax_error_at(input, Rule::IriRef, position));
    }
    let end = match iri_end_at(input, position + 1) {
        Some(end) => end,
        None => {
            return Err(syntax_error_at(input, Rule::IriRef, position));
        },
    };
    let inside = string_of_range(input, position + 1, end - 1);
    let plain = match unescape_iri(inside.as_str()) {
        Ok(plain) => plain,
        Err(e) => {
            return Err(e);
        },
    };
    match Iri::parse(plain.as_str()) {
        Ok(iri) => {
            if iri.is_relative_reference() {
                Err(Error::AbsoluteIriExpected(plain))
            } else {
                Ok((iri, end))
            }
        },
        Err(e) => Err(e),
    }
}

/// The IRI of a datatype.
pub fn iri(input: &Vec<char>, position: usize) -> (r: Result<(Iri, usize), Error>)
    requires
        position <= input.len(),
    ensures
        match r {
            Ok((iri, end)) => read_iri_ref(input@, position as int) == Ok::<
                (Seq<char>, int),
                ErrorView,
            >((iri@, end as int)) && position < end <= input.len() && !iri.relative(),
            Err(e) => read_iri_ref(input@, position as int) == Err::<(Seq<char>, int), ErrorView>(
                e@,
            ),
        },
{
    iri_ref(input, position)
}

/// The label of a blank node.
pub fn blank_node(input: &Vec<char>, position: usize) -> (r: Result<(String, usize), Error>)
    requires
        position <= input.len(),
    ensures
        match r {
            Ok((label, end)) => read_blank(input@, position as int) == Ok::<
                (Seq<char>, int),
                ErrorView,
            >((label@, end as int)) && position < end <= input.len(),
            Err(e) => read_blank(input@, position as int) == Err::<(Seq<char>, int), ErrorView>(
                e@,
            ),
        },
{
    if input.len() - position >= 3 && input[position] == '_' && input[position + 1] == ':'
        && label_start(input[position + 2]) {
        let end = label_end_at(input, position + 3);
        Ok((string_of_range(input, position + 2, end), end))
    } else {
        Err(syntax_error_at(input, Rule::BlankNode, position))
    }
}

/// A subject.
pub fn subject(input: &Vec<char>, position: usize) -> (r: Result<(SubjectNode, usize), Error>)
    requires
        position <= input.len(),
    ensures
        r matches Ok((node, _)) ==> node.absolute(),
        match r {
            Ok((node, end)) => read_subject(input@, position as int) == Ok::<
                (NodeView, int),
                ErrorView,
            >((node@, end as int)) && position < end <= input.len(),
            Err(e) => read_subject(input@, position as int) == Err::<(NodeView, int), ErrorView>(
                e@,
            ),
        },
{
    if position < input.len() && input[position] == '<' {
        match iri_ref(input, position) {
            Ok((iri, end)) => Ok((SubjectNode::Named(iri), end)),
            Err(e) => Err(e),
        }
    } else if position < input.len() && input[position] == '_' {
        match blank_node(input, position) {
            Ok((label, end)) => Ok((SubjectNode::Blank(label), end)),
            Err(e) => Err(e),
        }
    } else {
        Err(syntax_error_at(input, Rule::Subject, position))
    }
}

/// A predicate.
pub fn predicate(input: &Vec<char>, position: usize) -> (r: Result<(Iri, usize), Error>)
    requires
        position <= input.len(),
    ensures
        r matches Ok((iri, _)) ==> !iri.relative(),
        match r {
            Ok((iri, end)) => read_predicate(input@, position as int) == Ok::<
                (Seq<char>, int),
                ErrorView,
            >((iri@, end as int)) && position < end <= input.len(),
            Err(e) => read_predicate(input@, position as int) == Err::<
                (Seq<char>, int),
                ErrorView,
            >(e@),
        },
{
    if position < input.len() && input[position] == '<' {
        iri_ref(input, position)
    } else {
        Err(syntax_error_at(input, Rule::Predicate, position))
    }
}

/// A quoted string: what stands between the quotes, as it stands.
pub fn string(input: &Vec<char>, position: usize) -> (r: Result<(String, usize), Error>)
    requires
        position <= input.len(),
    ensures
        match r {
            Ok((form, end)) => read_string(input@, position as int) == Ok::<
                (Seq<char>, int),
                ErrorView,
            >((form@, end as int)) && position < end <= input.len(),
            Err(e) => read_string(input@, position as int) == Err::<(Seq<char>, int), ErrorView>(
                e@,
            ),
        },
{
    if position < input.len() && input[position] == '"' {
        match string_end_at(input, position + 1) {
            Some(end) => Ok((string_of_range(input, position + 1, end - 1), end)),
            None => Err(syntax_error_at(input, Rule::QuotedString, position)),
        }
    } else {
        Err(syntax_error_at(input, Rule::QuotedString, position))
    }
}

/// A language tag.
pub fn lang_tag(input: &Vec<char>, position: usize) -> (r: Result<(String, usize), Error>)
    requires
        position <= input.len(),
    ensures
        match r {
            Ok((tag, end)) => read_lang_tag(input@, position as int) == Ok::<
                (Seq<char>, int),
                ErrorView,
            >((tag@, end as int)) && position < end <= input.len(),
            Err(e) => read_lang_tag(input@, position as int) == Err::<
                (Seq<char>, int),
                ErrorView,
            >(e@),
        },
{
    if position < input.len() && input[position] == '@' {
        let letters = alpha_end_at(input, position + 1);
        if letters > position + 1 {
            let end = subtags_end_at(input, letters);
            return Ok((string_of_range(input, position + 1, end), end));
        }
    }
    Err(syntax_error_at(input, Rule::LangTag, position))
}

/// A literal: a quoted string with its datatype or its language.
pub fn rdf_literal(input: &Vec<char>, position: usize) -> (r: Result<(Literal, usize), Error>)
    requires
        position <= input.len(),
    ensures
        r matches Ok((literal, _)) ==> literal.absolute(),
        match r {
            Ok((literal, end)) => read_literal(input@, position as int) == Ok::<
                (LiteralView, int),
                ErrorView,
            >((literal@, end as int)) && position < end <= input.len(),
            Err(e) => read_literal(input@, position as int) == Err::<
                (LiteralView, int),
                ErrorView,
            >(e@),
        },
{
    let (lexical_form, end) = match string(input, position) {
        Ok(found) => found,
        Err(e) => {
            return Err(e);
        },
    };
    if input.len() - end >= 2 && input[end] == '^' && input[end + 1] == '^' {
        match iri(input, end + 2) {
            Ok((data_type, after)) => Ok(
                (
                    Literal::from_lexical_form_with_type(
                        lexical_form.as_str(),
                        DataType::Other(data_type),
                    ),
                    after,
                ),
            ),
            Err(e) => Err(e),
        }
    } else if end < input.len() && input[end] == '@' {
        match lang_tag(input, end) {
            Ok((tag, after)) => Ok(
                (
                    Literal::from_lexical_form_with_language(lexical_form.as_str(), tag.as_str()),
                    after,
                ),
            ),
            Err(e) => Err(e),
        }
    } else {
        Ok((Literal::from_lexical_form(lexical_form.as_str()), end))
    }
}

/// A literal.
pub fn literal(input: &Vec<char>, position: usize) -> (r: Result<(Literal, usize), Error>)
    requires
        position <= input.len(),
    ensures
        r matches Ok((literal, _)) ==> literal.absolute(),
        match r {
            Ok((literal, end)) => read_literal(input@, position as int) == Ok::<
                (LiteralView, int),
                ErrorView,
            >((literal@, end as int)) && position < end <= input.len(),
            Err(e) => read_literal(input@, position as int) == Err::<
                (LiteralView, int),
                ErrorView,
            >(e@),
        },
{
    rdf_literal(input, position)
}

/// An object.
pub fn object(input: &Vec<char>, position: usize) -> (r: Result<(ObjectNode, usize), Error>)
    requires
        position <= input.len(),
    ensures
        r matches Ok((node, _)) ==> node.absolute(),
        match r {
            Ok((node, end)) => read_object(input@, position as int) == Ok::<
                (NodeView, int),
                ErrorView,
            >((node@, end as int)) && position < end <= input.len(),
            Err(e) => read_object(input@, position as int) == Err::<(NodeView, int), ErrorView>(
                e@,
            ),
        },
{
    if position < input.len() && input[position] == '<' {
        match iri_ref(input, position) {
            Ok((iri, end)) => Ok((ObjectNode::Named(iri), end)),
            Err(e) => Err(e),
        }
    } else if position < input.len() && input[position] == '_' {
        match blank_node(input, position) {
            Ok((label, end)) => Ok((ObjectNode::Blank(label), end)),
            Err(e) => Err(e),
        }
    } else if position < input.len() && input[position] == '"' {
        match literal(input, position) {
            Ok((literal, end)) => Ok((ObjectNode::Literal(literal), end)),
            Err(e) => Err(e),
        }
    } else {
        Err(syntax_error_at(input, Rule::Object, position))
    }
}

/// A statement with its period.
pub fn triple(input: &Vec<char>, position: usize) -> (r: Result<(Statement, usize), Error>)
    requires
        position <= input.len(),
    ensures
        r matches Ok((statement, _)) ==> statement.absolute(),
        match r {
            Ok((statement, end)) => read_triple(input@, position as int) == Ok::<
                (StatementView, int),
                ErrorView,
            >((statement@, end as int)) && position < end <= input.len(),
            Err(e) => read_triple(input@, position as int) == Err::<
                (StatementView, int),
                ErrorView,
            >(e@),
        },
{
    let (subject, a) = match subject(input, position) {
        Ok(found) => found,
        Err(e) => {
            return Err(e);
        },
    };
    let (predicate, b) = match predicate(input, skip_ws_at(input, a)) {
        Ok(found) => found,
        Err(e) => {
            return Err(e);
        },
    };
    let (object, c) = match object(input, skip_ws_at(input, b)) {
        Ok(found) => found,
        Err(e) => {
            return Err(e);
        },
    };
    let d = skip_ws_at(input, c);
    if d < input.len() && input[d] == '.' {
        Ok((Statement::new(subject, predicate, object), d + 1))
    } else {
        Err(syntax_error_at(input, Rule::Triple, d))
    }
}

/// `rest` with `head` in front, where there is a `rest`.
pub open spec fn after_statements(
    head: Seq<StatementView>,
    rest: Result<Seq<StatementView>, ErrorView>,
) -> Result<Seq<StatementView>, ErrorView> {
    match rest {
        Ok(statements) => Ok(head + statements),
        Err(e) => Err(e),
    }
}

/// A document: the graph of its statements.
pub fn ntriples_doc(input: &Vec<char>) -> (r: Result<Graph, Error>)
    ensures
        r matches Ok(graph) ==> graph.absolute(),
        match r {
            Ok(graph) => read_graph(input@) == Ok::<GraphView, ErrorView>(graph@),
            Err(e) => read_graph(input@) == Err::<GraphView, ErrorView>(e@),
        },
{
    let mut graph = Graph::new();
    let ghost mut seen: Seq<StatementView> = Seq::empty();
    let mut position: usize = 0;
    proof {
        match read_doc(input@, 0) {
            Ok(statements) => {
                assert(seen + statements == statements);
            },
            Err(_) => {},
        }
    }
    loop
        invariant
            position <= input.len(),
            graph.absolute(),
            read_doc(input@, 0) == after_statements(seen, read_doc(input@, position as int)),
            graph@ == (GraphView {
                statements: inserted_all(seen, seen.len() as int),
                mappings: Seq::empty(),
                name: None,
            }),
        decreases input.len() - position,
    {
        let start = skip_blank_at(input, position);
        if start >= input.len() {
            proof {
                assert(seen + Seq::<StatementView>::empty() == seen);
            }
            return Ok(graph);
        }
        let (statement, end) = match triple(input, start) {
            Ok(found) => found,
            Err(e) => {
                return Err(e);
            },
        };
        let spaces = skip_ws_at(input, end);
        let tail = if spaces < input.len() && input[spaces] == '#' {
            line_end_at(input, spaces)
        } else {
            spaces
        };
        if tail < input.len() && !(input[tail] == '\n' || input[tail] == '\r') {
            return Err(syntax_error_at(input, Rule::NtriplesDoc, tail));
        }
        proof {
            let grown = seen.push(statement@);
            assert(grown.drop_last() == seen);
            assert(inserted_all(grown, grown.len() as int) == inserted(
                inserted_all(grown, grown.len() - 1),
                statement@,
            ));
            lemma_inserted_all_prefix(grown, seen.len() as int);
            match read_doc(input@, tail as int) {
                Ok(rest) => {
                    assert(seen + (seq![statement@] + rest) == grown + rest);
                },
                Err(_) => {},
            }
            seen = grown;
        }
        graph.insert(statement);
        position = tail;
    }
}

/// What was added first does not depend on what comes later.
proof fn lemma_inserted_all_prefix(statements: Seq<StatementView>, upto: int)
    requires
        0 <= upto <= statements.len(),
    ensures
        inserted_all(statements, upto) == inserted_all(statements.subrange(0, upto), upto),
    decreases upto,
{
    if upto > 0 {
        lemma_inserted_all_prefix(statements, upto - 1);
        lemma_inserted_all_prefix(statements.subrange(0, upto), upto - 1);
        assert(statements.subrange(0, upto).subrange(0, upto - 1) == statements.subrange(
            0,
            upto - 1,
        ));
    }
}

/// Reads a document of the line-oriented format into a new graph. The
/// statements are added in their order. The first error ends the reading,
/// and no graph is returned then.
pub fn parse_graph(input: &str) -> (r: Result<Graph, Error>)
    ensures
        r matches Ok(graph) ==> graph.absolute(),
        match r {
            Ok(graph) => read_graph(input@) == Ok::<GraphView, ErrorView>(graph@),
            Err(e) => read_graph(input@) == Err::<GraphView, ErrorView>(e@),
        },
{
    let chars = chars_of(input);
    ntriples_doc(&chars)
}

} // verus!
