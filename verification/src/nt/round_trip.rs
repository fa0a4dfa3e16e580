//! What is written in the line-oriented format is read back as it was.

use crate::error::ErrorView;
use crate::escape::{
    echar, escaped, escaped_char, hex_run, is_hex_digit, lemma_uchar_len_skip, uchar_len,
    uchar_len_at,
};
use crate::graph::{Graph, GraphView};
use crate::iri::{has_scheme, iri_normal_form, port_out_of_range, Iri};
use crate::literal::{lowercased, DataType, DataTypeView, Literal, LiteralView};
use crate::nt::parser::{
    absolute_iri, alnum_end, alpha_end, inserted_all, iri_end, is_alnum, is_alpha, is_eol,
    is_iri_char, is_label_start, is_pn_chars, label_end, lemma_alnum_end, line_tail, read_blank,
    read_doc, read_graph, read_iri_ref, read_lang_tag, read_literal, read_object,
    read_predicate, read_string, read_subject, read_triple, skip_blank, skip_ws, string_end,
    subtags_end, unescaped_iri,
};
use crate::nt::parser::{
    alpha_end_at, iri_char, is_echar, label_start, pn_chars, subtags_end_at,
};
use crate::nt::writer::lines;
use crate::statement::{NodeView, ObjectNode, Statement, StatementView, SubjectNode};
use crate::text::chars_of;
use vstd::prelude::*;

verus! {

/// Whether an IRI can be written between angle brackets as it stands and is
/// read back as itself: every character may stand in an IRI, the IRI has a
/// scheme, and `rdftk_iri` reads it as it is written.
pub open spec fn stable_iri(iri: Seq<char>) -> bool {
    &&& forall|k: int| 0 <= k < iri.len() ==> is_iri_char(#[trigger] iri[k])
    &&& has_scheme(iri)
    &&& !port_out_of_range(iri)
    &&& iri_normal_form(iri) == Some(iri)
}

/// Whether a text is the label of a blank node: a first character that may
/// begin a label, then letters and periods, and no period at the end.
pub open spec fn is_label(label: Seq<char>) -> bool {
    &&& label.len() >= 1
    &&& is_label_start(label[0])
    &&& forall|k: int| 1 <= k < label.len() ==> is_pn_chars(#[trigger] label[k]) || label[k] == '.'
    &&& label.len() >= 2 ==> is_pn_chars(label.last())
}

/// Whether a text can stand between quotes: no quote and no line end in it
/// but in an escape, and every backslash begins an escape.
pub open spec fn is_string_body(form: Seq<char>) -> bool
    decreases form.len(),
{
    if form.len() == 0 {
        true
    } else if form[0] == '"' || is_eol(form[0]) {
        false
    } else if form[0] == '\\' {
        if form.len() >= 2 && echar(form[1]) is Some {
            is_string_body(form.skip(2))
        } else if uchar_len(form, 0) > 0 {
            is_string_body(form.skip(uchar_len(form, 0)))
        } else {
            false
        }
    } else {
        is_string_body(form.skip(1))
    }
}

/// Whether a text is a language tag in lower case: letters, then subtags of
/// letters and digits, each after a hyphen.
pub open spec fn is_lang_tag(tag: Seq<char>) -> bool {
    &&& alpha_end(tag, 0) > 0
    &&& subtags_end(tag, alpha_end(tag, 0)) == tag.len()
    &&& lowercased(tag) == tag
}

/// Whether a literal is read back as itself: its lexical form can stand
/// between quotes, and it has no datatype, or one that a stable IRI names, or
/// a language tag in lower case.
pub open spec fn writable_literal(literal: LiteralView) -> bool {
    &&& is_string_body(literal.lexical_form)
    &&& match (literal.data_type, literal.language) {
        (None, None) => true,
        (Some(DataTypeView::Other(iri)), None) => stable_iri(iri),
        (None, Some(tag)) => is_lang_tag(tag),
        _ => false,
    }
}

/// Whether a node is read back as itself.
pub open spec fn writable_node(node: NodeView) -> bool {
    match node {
        NodeView::Named(iri) => stable_iri(iri),
        NodeView::Blank(label) => is_label(label),
        NodeView::Literal(literal) => writable_literal(literal),
    }
}

/// Whether a statement is read back as itself.
pub open spec fn writable(statement: StatementView) -> bool {
    &&& writable_node(statement.subject)
    &&& !(statement.subject is Literal)
    &&& stable_iri(statement.predicate)
    &&& writable_node(statement.object)
}

/// Where `a + b` stands at `p`, `a` stands at `p` and `b` behind it.
proof fn lemma_split(s: Seq<char>, p: int, a: Seq<char>, b: Seq<char>)
    requires
        0 <= p,
        p + a.len() + b.len() <= s.len(),
        s.subrange(p, p + a.len() + b.len()) == a + b,
    ensures
        s.subrange(p, p + a.len()) == a,
        s.subrange(p + a.len(), p + a.len() + b.len()) == b,
{
    let whole = s.subrange(p, p + a.len() + b.len());
    assert forall|k: int| 0 <= k < a.len() implies s[p + k] == a[k] by {
        assert(whole[k] == (a + b)[k]);
    }
    assert forall|k: int| 0 <= k < b.len() implies s[p + a.len() + k] == b[k] by {
        assert(whole[a.len() + k] == (a + b)[a.len() + k]);
    }
    assert(s.subrange(p, p + a.len()) =~= a);
    assert(s.subrange(p + a.len(), p + a.len() + b.len()) =~= b);
}

/// A run of characters that may stand in an IRI, and then the closing
/// bracket, is the inside of an IRI.
proof fn lemma_iri_scan(s: Seq<char>, p: int, n: int)
    requires
        0 <= p,
        0 <= n,
        p + n < s.len(),
        forall|k: int| p <= k < p + n ==> is_iri_char(#[trigger] s[k]),
        s[p + n] == '>',
    ensures
        iri_end(s, p) == Some(p + n + 1),
    decreases n,
{
    if n > 0 {
        assert(is_iri_char(s[p]));
        lemma_iri_scan(s, p + 1, n - 1);
    }
}

/// A text without backslash holds no numeric escape and stays as it is.
proof fn lemma_unescaped_same(text: Seq<char>)
    requires
        forall|k: int| 0 <= k < text.len() ==> #[trigger] text[k] != '\\',
    ensures
        unescaped_iri(text) == Ok::<Seq<char>, Seq<char>>(text),
    decreases text.len(),
{
    if text.len() > 0 {
        assert(text[0] != '\\');
        assert(uchar_len(text, 0) == 0);
        assert forall|k: int| 0 <= k < text.skip(1).len() implies #[trigger] text.skip(1)[k]
            != '\\' by {
            assert(text.skip(1)[k] == text[k + 1]);
        }
        lemma_unescaped_same(text.skip(1));
        assert(seq![text[0]] + text.skip(1) == text);
    } else {
        assert(text =~= Seq::<char>::empty());
    }
}

/// A stable IRI between angle brackets is read as itself.
proof fn lemma_iri_at(s: Seq<char>, p: int, iri: Seq<char>)
    requires
        stable_iri(iri),
        0 <= p,
        p + iri.len() + 2 <= s.len(),
        s[p] == '<',
        s.subrange(p + 1, p + 1 + iri.len()) == iri,
        s[p + 1 + iri.len()] == '>',
    ensures
        read_iri_ref(s, p) == Ok::<(Seq<char>, int), ErrorView>((iri, p + iri.len() + 2)),
{
    let n = iri.len() as int;
    assert forall|k: int| p + 1 <= k < p + 1 + n implies is_iri_char(#[trigger] s[k]) by {
        assert(s[k] == s.subrange(p + 1, p + 1 + n)[k - p - 1]);
        assert(is_iri_char(iri[k - p - 1]));
    }
    lemma_iri_scan(s, p + 1, n);
    assert forall|k: int| 0 <= k < iri.len() implies #[trigger] iri[k] != '\\' by {
        assert(is_iri_char(iri[k]));
    }
    lemma_unescaped_same(iri);
    assert(absolute_iri(iri) == Ok::<Seq<char>, ErrorView>(iri));
}

/// Letters and periods of a label, with a letter at the end and something
/// else behind it, are the rest of a label.
proof fn lemma_label_scan(s: Seq<char>, j: int, last: int, end: int)
    requires
        0 <= last <= j <= end <= s.len(),
        forall|k: int| j <= k < end ==> is_pn_chars(#[trigger] s[k]) || s[k] == '.',
        j < end ==> is_pn_chars(s[end - 1]),
        j == end ==> last == end,
        end < s.len() ==> !is_pn_chars(s[end]) && s[end] != '.',
    ensures
        label_end(s, j, last) == end,
    decreases end - j,
{
    if j < end {
        if is_pn_chars(s[j]) {
            lemma_label_scan(s, j + 1, j + 1, end);
        } else {
            assert(s[j] == '.');
            assert(j != end - 1);
            lemma_label_scan(s, j + 1, last, end);
        }
    }
}

/// A label behind `_:` is read as itself.
proof fn lemma_blank_at(s: Seq<char>, p: int, label: Seq<char>)
    requires
        is_label(label),
        0 <= p,
        p + 2 + label.len() <= s.len(),
        s[p] == '_',
        s[p + 1] == ':',
        s.subrange(p + 2, p + 2 + label.len()) == label,
        p + 2 + label.len() < s.len() ==> !is_pn_chars(s[p + 2 + label.len()]) && s[p + 2
            + label.len()] != '.',
    ensures
        read_blank(s, p) == Ok::<(Seq<char>, int), ErrorView>((label, p + 2 + label.len())),
{
    let n = label.len() as int;
    let end = p + 2 + n;
    assert forall|k: int| 0 <= k < n implies s[p + 2 + k] == label[k] by {
        assert(s.subrange(p + 2, p + 2 + n)[k] == label[k]);
    }
    assert(s[p + 2] == label[0]);
    assert forall|k: int| p + 3 <= k < end implies is_pn_chars(#[trigger] s[k]) || s[k] == '.' by {
        assert(s[k] == label[k - p - 2]);
    }
    if n >= 2 {
        assert(s[end - 1] == label[n - 1]);
    }
    lemma_label_scan(s, p + 3, p + 3, end);
}

/// A numeric escape that begins in a part of a text begins there in the
/// whole text, where the part holds it whole.
proof fn lemma_uchar_inside(s: Seq<char>, p: int, form: Seq<char>)
    requires
        0 <= p,
        p + form.len() <= s.len(),
        s.subrange(p, p + form.len()) == form,
        uchar_len(form, 0) > 0,
    ensures
        uchar_len(s, p) == uchar_len(form, 0),
{
    assert forall|k: int| 0 <= k < form.len() implies s[p + k] == form[k] by {
        assert(s.subrange(p, p + form.len())[k] == form[k]);
    }
    if uchar_len(form, 0) == 6 {
        assert(hex_run(form, 2, 4));
        assert(hex_run(s, p + 2, 4)) by {
            assert forall|i: int| p + 2 <= i < p + 6 implies is_hex_digit(#[trigger] s[i]) by {
                assert(s[i] == form[i - p]);
            }
        }
        assert(s[p + 1] == form[1]);
    } else {
        assert(hex_run(form, 2, 8));
        assert(form[1] == 'U');
        assert(hex_run(s, p + 2, 8)) by {
            assert forall|i: int| p + 2 <= i < p + 10 implies is_hex_digit(#[trigger] s[i]) by {
                assert(s[i] == form[i - p]);
            }
        }
        assert(s[p + 1] == form[1]);
    }
}

/// What can stand between quotes, with a quote behind it, is the inside of
/// a quoted string.
proof fn lemma_string_scan(s: Seq<char>, p: int, form: Seq<char>)
    requires
        is_string_body(form),
        0 <= p,
        p + form.len() < s.len(),
        s.subrange(p, p + form.len()) == form,
        s[p + form.len()] == '"',
    ensures
        string_end(s, p) == Some(p + form.len() + 1),
    decreases form.len(),
{
    if form.len() > 0 {
        assert forall|k: int| 0 <= k < form.len() implies s[p + k] == form[k] by {
            assert(s.subrange(p, p + form.len())[k] == form[k]);
        }
        assert(s[p] == form[0]);
        let step = if form[0] == '\\' {
            if form.len() >= 2 && echar(form[1]) is Some {
                2
            } else {
                uchar_len(form, 0)
            }
        } else {
            1
        };
        if form[0] == '\\' {
            if form.len() >= 2 && echar(form[1]) is Some {
                assert(s[p + 1] == form[1]);
            } else {
                lemma_uchar_inside(s, p, form);
                assert(s[p + 1] == if form.len() >= 2 {
                    form[1]
                } else {
                    '"'
                });
            }
        }
        assert(s.subrange(p + step, p + form.len()) =~= form.skip(step));
        lemma_string_scan(s, p + step, form.skip(step));
    }
}

/// The escaped form of a text can stand between quotes.
pub proof fn lemma_escaped_is_string_body(text: Seq<char>)
    ensures
        is_string_body(escaped(text)),
    decreases text.len(),
{
    if text.len() > 0 {
        let c = text[0];
        let e = escaped(text);
        let rest = escaped(text.skip(1));
        lemma_escaped_is_string_body(text.skip(1));
        assert(e == escaped_char(c) + rest);
        if c == '"' || c == '\\' || c == '\n' || c == '\r' || c == '\t' {
            assert(e[0] == '\\');
            assert(echar(e[1]) is Some);
            assert(e.skip(2) =~= rest);
        } else {
            assert(e[0] == c);
            assert(e.skip(1) =~= rest);
        }
    }
}

/// A run of letters in a part of a text that something else follows ends
/// where it ends in the part.
proof fn lemma_alpha_scan(s: Seq<char>, p: int, tag: Seq<char>, j: int)
    requires
        0 <= p,
        0 <= j <= tag.len(),
        p + tag.len() <= s.len(),
        s.subrange(p, p + tag.len()) == tag,
        p + tag.len() < s.len() ==> !is_alnum(s[p + tag.len()]) && s[p + tag.len()] != '-',
    ensures
        alpha_end(s, p + j) == p + alpha_end(tag, j),
    decreases tag.len() - j,
{
    if j < tag.len() {
        assert(s[p + j] == s.subrange(p, p + tag.len())[j]);
        if is_alpha(tag[j]) {
            lemma_alpha_scan(s, p, tag, j + 1);
        }
    }
}

/// A run of letters and digits in a part of a text that something else
/// follows ends where it ends in the part.
proof fn lemma_alnum_scan(s: Seq<char>, p: int, tag: Seq<char>, j: int)
    requires
        0 <= p,
        0 <= j <= tag.len(),
        p + tag.len() <= s.len(),
        s.subrange(p, p + tag.len()) == tag,
        p + tag.len() < s.len() ==> !is_alnum(s[p + tag.len()]) && s[p + tag.len()] != '-',
    ensures
        alnum_end(s, p + j) == p + alnum_end(tag, j),
    decreases tag.len() - j,
{
    if j < tag.len() {
        assert(s[p + j] == s.subrange(p, p + tag.len())[j]);
        if is_alnum(tag[j]) {
            lemma_alnum_scan(s, p, tag, j + 1);
        }
    }
}

/// Subtags in a part of a text that something else follows end where they
/// end in the part.
proof fn lemma_subtags_scan(s: Seq<char>, p: int, tag: Seq<char>, j: int)
    requires
        0 <= p,
        0 <= j <= tag.len(),
        p + tag.len() <= s.len(),
        s.subrange(p, p + tag.len()) == tag,
        p + tag.len() < s.len() ==> !is_alnum(s[p + tag.len()]) && s[p + tag.len()] != '-',
    ensures
        subtags_end(s, p + j) == p + subtags_end(tag, j),
    decreases tag.len() - j,
{
    assert forall|k: int| 0 <= k < tag.len() implies s[p + k] == tag[k] by {
        assert(s.subrange(p, p + tag.len())[k] == tag[k]);
    }
    if j + 1 < tag.len() && tag[j] == '-' && is_alnum(tag[j + 1]) {
        lemma_alnum_end(tag, j + 1);
        lemma_alnum_scan(s, p, tag, j + 1);
        lemma_subtags_scan(s, p, tag, alnum_end(tag, j + 1));
    } else if j < tag.len() {
        if j + 1 == tag.len() {
            // the hyphen, if it is one, is the last character of the tag
            if p + tag.len() < s.len() {
                assert(!is_alnum(s[p + j + 1]));
            }
        }
    }
}

/// A language tag behind `@` is read as itself.
proof fn lemma_tag_at(s: Seq<char>, p: int, tag: Seq<char>)
    requires
        is_lang_tag(tag),
        0 <= p,
        p + 1 + tag.len() <= s.len(),
        s[p] == '@',
        s.subrange(p + 1, p + 1 + tag.len()) == tag,
        p + 1 + tag.len() < s.len() ==> !is_alnum(s[p + 1 + tag.len()]) && s[p + 1 + tag.len()]
            != '-',
    ensures
        read_lang_tag(s, p) == Ok::<(Seq<char>, int), ErrorView>((tag, p + 1 + tag.len())),
{
    lemma_alpha_scan(s, p + 1, tag, 0);
    crate::nt::parser::lemma_alpha_end(tag, 0);
    lemma_subtags_scan(s, p + 1, tag, alpha_end(tag, 0));
}

/// A writable literal as it is written, with a space behind it, is read as
/// itself.
proof fn lemma_literal_at(s: Seq<char>, p: int, literal: LiteralView)
    requires
        writable_literal(literal),
        0 <= p,
        p + literal.text().len() < s.len(),
        s.subrange(p, p + literal.text().len()) == literal.text(),
        s[p + literal.text().len()] == ' ',
    ensures
        read_literal(s, p) == Ok::<(LiteralView, int), ErrorView>(
            (literal, p + literal.text().len()),
        ),
{
    reveal_strlit("\"");
    reveal_strlit("^^<");
    reveal_strlit(">");
    reveal_strlit("@");
    let form = literal.lexical_form;
    let suffix = literal.suffix();
    let text = literal.text();
    let quoted = "\""@ + form + "\""@;
    assert(text == quoted + suffix);
    assert(quoted.len() == form.len() + 2);
    lemma_split(s, p, quoted, suffix);
    lemma_split(s, p, "\""@ + form, "\""@);
    lemma_split(s, p, "\""@, form);
    assert(s[p] == s.subrange(p, p + 1)[0]);
    assert(s[p + 1 + form.len()] == s.subrange(p + 1 + form.len(), p + 2 + form.len())[0]);
    lemma_string_scan(s, p + 1, form);
    let end = p + form.len() + 2;
    assert(s.subrange(p + 1, end - 1) == form);
    assert(read_string(s, p) == Ok::<(Seq<char>, int), ErrorView>((form, end)));
    match (literal.data_type, literal.language) {
        (None, None) => {
            assert(suffix.len() == 0);
        },
        (Some(DataTypeView::Other(iri)), None) => {
            assert(suffix == "^^<"@ + iri + ">"@);
            lemma_split(s, end, "^^<"@ + iri, ">"@);
            lemma_split(s, end, "^^<"@, iri);
            let head = s.subrange(end, end + 3);
            assert(s[end] == head[0]);
            assert(s[end + 1] == head[1]);
            assert(s[end + 2] == head[2]);
            assert(s[end + 3 + iri.len()] == s.subrange(end + 3 + iri.len(), end + 4 + iri.len())[0]);
            lemma_iri_at(s, end + 2, iri);
        },
        (None, Some(tag)) => {
            assert(suffix == "@"@ + tag);
            lemma_split(s, end, "@"@, tag);
            assert(s[end] == s.subrange(end, end + 1)[0]);
            lemma_tag_at(s, end, tag);
        },
        _ => {},
    }
}

/// A writable node that is no literal, as it is written, with a space
/// behind it, is read as itself: as a subject and as an object.
proof fn lemma_node_at(s: Seq<char>, p: int, node: NodeView)
    requires
        writable_node(node),
        !(node is Literal),
        0 <= p,
        p + node.text().len() < s.len(),
        s.subrange(p, p + node.text().len()) == node.text(),
        s[p + node.text().len()] == ' ',
    ensures
        read_subject(s, p) == Ok::<(NodeView, int), ErrorView>((node, p + node.text().len())),
        read_object(s, p) == Ok::<(NodeView, int), ErrorView>((node, p + node.text().len())),
{
    reveal_strlit("<");
    reveal_strlit(">");
    reveal_strlit("_:");
    match node {
        NodeView::Named(iri) => {
            lemma_split(s, p, "<"@ + iri, ">"@);
            lemma_split(s, p, "<"@, iri);
            assert(s[p] == s.subrange(p, p + 1)[0]);
            assert(s[p + 1 + iri.len()] == s.subrange(p + 1 + iri.len(), p + 2 + iri.len())[0]);
            lemma_iri_at(s, p, iri);
        },
        NodeView::Blank(label) => {
            lemma_split(s, p, "_:"@, label);
            let head = s.subrange(p, p + 2);
            assert(s[p] == head[0]);
            assert(s[p + 1] == head[1]);
            lemma_blank_at(s, p, label);
        },
        NodeView::Literal(_) => {},
    }
}

/// A writable statement as it is written is read as itself.
#[verifier::rlimit(60)]
proof fn lemma_triple_at(s: Seq<char>, p: int, statement: StatementView)
    requires
        writable(statement),
        0 <= p,
        p + statement.text().len() <= s.len(),
        s.subrange(p, p + statement.text().len()) == statement.text(),
    ensures
        read_triple(s, p) == Ok::<(StatementView, int), ErrorView>(
            (statement, p + statement.text().len()),
        ),
        s[p] == '<' || s[p] == '_',
{
    reveal_strlit(" <");
    reveal_strlit("> ");
    reveal_strlit(" .");
    reveal_strlit("<");
    reveal_strlit(">");
    reveal_strlit("_:");
    reveal_strlit("\"");
    let first = statement.subject.text();
    let name = statement.predicate;
    let last = statement.object.text();
    let t1 = first + " <"@;
    let t2 = t1 + name;
    let t3 = t2 + "> "@;
    let t4 = t3 + last;
    assert(statement.text() == t4 + " ."@);
    lemma_split(s, p, t4, " ."@);
    lemma_split(s, p, t3, last);
    lemma_split(s, p, t2, "> "@);
    lemma_split(s, p, t1, name);
    lemma_split(s, p, first, " <"@);
    let a = p + first.len();
    let b = a + name.len() + 3;
    let c = b + 1 + last.len();
    // the subject
    assert(s[a] == s.subrange(a, a + 2)[0]);
    assert(s[a + 1] == s.subrange(a, a + 2)[1]);
    lemma_node_at(s, p, statement.subject);
    assert(s[p] == first[0]) by {
        assert(s.subrange(p, p + first.len())[0] == first[0]);
    }
    // the predicate
    assert(skip_ws(s, a + 1) == a + 1);
    assert(skip_ws(s, a) == a + 1);
    assert(s[a + 2 + name.len()] == s.subrange(a + 2 + name.len(), a + 4 + name.len())[0]);
    assert(s[b] == s.subrange(a + 2 + name.len(), a + 4 + name.len())[1]);
    lemma_iri_at(s, a + 1, name);
    assert(read_predicate(s, a + 1) == Ok::<(Seq<char>, int), ErrorView>((name, b)));
    // the object
    assert(s[c] == s.subrange(c, c + 2)[0]);
    assert(s[c + 1] == s.subrange(c, c + 2)[1]);
    assert(s[b + 1] == last[0]) by {
        assert(s.subrange(b + 1, b + 1 + last.len())[0] == last[0]);
    }
    assert(skip_ws(s, b + 1) == b + 1);
    assert(skip_ws(s, b) == b + 1);
    match statement.object {
        NodeView::Literal(literal) => {
            lemma_literal_at(s, b + 1, literal);
        },
        _ => {
            lemma_node_at(s, b + 1, statement.object);
        },
    }
    assert(read_object(s, b + 1) == Ok::<(NodeView, int), ErrorView>((statement.object, c)));
    // the period
    assert(skip_ws(s, c + 1) == c + 1);
    assert(skip_ws(s, c) == c + 1);
}

/// The lines of writable statements are read as those statements.
proof fn lemma_lines_at(s: Seq<char>, q: int, p: int, statements: Seq<StatementView>, i: int)
    requires
        forall|k: int| 0 <= k < statements.len() ==> writable(#[trigger] statements[k]),
        0 <= i <= statements.len(),
        0 <= q <= p <= s.len(),
        q == p || (q + 1 == p && s[q] == '\n'),
        s.skip(p) == lines(statements, i),
    ensures
        read_doc(s, q) == Ok::<Seq<StatementView>, ErrorView>(statements.skip(i)),
    decreases statements.len() - i,
{
    reveal_strlit("\n");
    if i == statements.len() {
        assert(s.skip(p).len() == 0);
        assert(skip_blank(s, p) == p);
        assert(skip_blank(s, q) == p);
        assert(statements.skip(i) =~= Seq::<StatementView>::empty());
    } else {
        let statement = statements[i];
        let text = statement.text();
        let rest = lines(statements, i + 1);
        let n = text.len() as int;
        assert(lines(statements, i) == text + "\n"@ + rest);
        assert(s.skip(p) == s.subrange(p, s.len() as int));
        assert(s.len() - p == n + 1 + rest.len());
        assert(s.subrange(p, p + n + 1 + rest.len()) == (text + "\n"@) + rest);
        lemma_split(s, p, text + "\n"@, rest);
        lemma_split(s, p, text, "\n"@);
        assert(s[p + n] == s.subrange(p + n, p + n + 1)[0]);
        lemma_triple_at(s, p, statement);
        assert(skip_blank(s, p) == p);
        assert(skip_blank(s, q) == p);
        let r = p + n;
        assert(skip_ws(s, r) == r);
        assert(line_tail(s, r) == r);
        assert(s.skip(r + 1) =~= rest);
        lemma_lines_at(s, r, r + 1, statements, i + 1);
        assert(seq![statement] + statements.skip(i + 1) =~= statements.skip(i));
    }
}

/// Statements without repetition stay as they are when they are added to a
/// graph one after the other.
proof fn lemma_inserted_all_distinct(statements: Seq<StatementView>, upto: int)
    requires
        statements.no_duplicates(),
        0 <= upto <= statements.len(),
    ensures
        inserted_all(statements, upto) == statements.take(upto),
    decreases upto,
{
    if upto > 0 {
        lemma_inserted_all_distinct(statements, upto - 1);
        let before = statements.take(upto - 1);
        let next = statements[upto - 1];
        if before.contains(next) {
            let k = choose|k: int| 0 <= k < before.len() && before[k] == next;
            assert(statements[k] == statements[upto - 1]);
        }
        assert(before.push(next) =~= statements.take(upto));
    } else {
        assert(statements.take(0) =~= Seq::<StatementView>::empty());
    }
}

/// Reading undoes writing: the document that is written of statements that
/// can be read back, none of them twice, is read as the graph of those
/// statements, in their order.
pub proof fn lemma_round_trip(statements: Seq<StatementView>)
    requires
        forall|k: int| 0 <= k < statements.len() ==> writable(#[trigger] statements[k]),
        statements.no_duplicates(),
    ensures
        read_graph(lines(statements, 0)) == Ok::<GraphView, ErrorView>(
            GraphView { statements, mappings: Seq::empty(), name: None },
        ),
{
    let s = lines(statements, 0);
    assert(s.skip(0) =~= s);
    lemma_lines_at(s, 0, 0, statements, 0);
    assert(statements.skip(0) =~= statements);
    lemma_inserted_all_distinct(statements, statements.len() as int);
    assert(statements.take(statements.len() as int) =~= statements);
}

/// Decides `stable_iri`: the characters are looked at, and the IRI is read
/// again and held against itself.
pub fn is_stable_iri(iri: &Iri) -> (r: bool)
    ensures
        r == stable_iri(iri@),
{
    let chars = chars_of(iri.as_str());
    let mut k: usize = 0;
    while k < chars.len()
        invariant
            k <= chars.len(),
            chars@ == iri@,
            forall|j: int| 0 <= j < k ==> is_iri_char(#[trigger] chars@[j]),
        decreases chars.len() - k,
    {
        if !iri_char(chars[k]) {
            return false;
        }
        k = k + 1;
    }
    match Iri::parse(iri.as_str()) {
        Ok(again) => !again.is_relative_reference() && *again.as_str() == *iri.as_str(),
        Err(_) => false,
    }
}

/// Decides `is_label`.
pub fn is_blank_label(label: &str) -> (r: bool)
    ensures
        r == is_label(label@),
{
    let chars = chars_of(label);
    let n = chars.len();
    if n == 0 || !label_start(chars[0]) {
        return false;
    }
    let mut k: usize = 1;
    while k < n
        invariant
            1 <= k <= n == chars.len(),
            chars@ == label@,
            forall|j: int| 1 <= j < k ==> is_pn_chars(#[trigger] chars@[j]) || chars@[j] == '.',
        decreases n - k,
    {
        if !(pn_chars(chars[k]) || chars[k] == '.') {
            return false;
        }
        k = k + 1;
    }
    n < 2 || pn_chars(chars[n - 1])
}

/// Decides `is_string_body`.
pub fn is_quotable(form: &str) -> (r: bool)
    ensures
        r == is_string_body(form@),
{
    let chars = chars_of(form);
    let n = chars.len();
    let mut i: usize = 0;
    assert(chars@.skip(0) == chars@);
    while i < n
        invariant
            i <= n == chars.len(),
            chars@ == form@,
            is_string_body(form@) == is_string_body(chars@.skip(i as int)),
        decreases n - i,
    {
        let c = chars[i];
        let ghost tail = chars@.skip(i as int);
        proof {
            assert(tail[0] == c);
            assert(tail.skip(1) == chars@.skip(i + 1));
        }
        if c == '"' || c == '\n' || c == '\r' {
            return false;
        } else if c == '\\' {
            let simple = i + 1 < n && is_echar(chars[i + 1]);
            proof {
                if tail.len() >= 2 {
                    assert(tail[1] == chars@[i + 1]);
                    assert(tail.skip(2) == chars@.skip(i + 2));
                }
            }
            if simple {
                i = i + 2;
            } else {
                let step = uchar_len_at(&chars, i);
                proof {
                    lemma_uchar_len_skip(chars@, i as int);
                    if step > 0 {
                        assert(tail.skip(step as int) == chars@.skip(i + step));
                    }
                }
                if step == 0 {
                    return false;
                }
                i = i + step;
            }
        } else {
            i = i + 1;
        }
    }
    true
}

/// Decides `is_lang_tag`: the tag is scanned, and its lower-case form is
/// held against it.
pub fn is_lower_lang_tag(tag: &str) -> (r: bool)
    ensures
        r == is_lang_tag(tag@),
{
    let chars = chars_of(tag);
    let letters = alpha_end_at(&chars, 0);
    if letters == 0 {
        return false;
    }
    if subtags_end_at(&chars, letters) != chars.len() {
        return false;
    }
    let lower = tag.to_lowercase();
    *lower.as_str() == *tag
}

/// Decides `writable_literal`.
pub fn is_writable_literal(literal: &Literal) -> (r: bool)
    ensures
        r == writable_literal(literal@),
{
    if !is_quotable(literal.lexical_form().as_str()) {
        return false;
    }
    match (literal.data_type(), literal.language()) {
        (None, None) => true,
        (Some(DataType::Other(iri)), None) => is_stable_iri(iri),
        (None, Some(tag)) => is_lower_lang_tag(tag.as_str()),
        _ => false,
    }
}

/// Decides `writable`: whether the statement is read back as itself when it
/// is written.
pub fn is_writable(statement: &Statement) -> (r: bool)
    ensures
        r == writable(statement@),
{
    let subject = match statement.subject() {
        SubjectNode::Named(iri) => is_stable_iri(iri),
        SubjectNode::Blank(label) => is_blank_label(label.as_str()),
    };
    if !subject || !is_stable_iri(statement.predicate()) {
        return false;
    }
    match statement.object() {
        ObjectNode::Named(iri) => is_stable_iri(iri),
        ObjectNode::Blank(label) => is_blank_label(label.as_str()),
        ObjectNode::Literal(literal) => is_writable_literal(literal),
    }
}

/// Whether every statement is read back as itself.
pub open spec fn all_writable(statements: Seq<StatementView>) -> bool {
    forall|k: int| 0 <= k < statements.len() ==> writable(#[trigger] statements[k])
}

/// Decides `all_writable` of the statements of a graph.
pub fn is_writable_graph(graph: &Graph) -> (r: bool)
    ensures
        r == all_writable(graph@.statements),
{
    let statements = graph.statements();
    let ghost views = graph@.statements;
    let mut k: usize = 0;
    while k < statements.len()
        invariant
            k <= statements.len(),
            views == crate::statement::statement_views(statements@),
            views == graph@.statements,
            forall|j: int| 0 <= j < k ==> writable(#[trigger] views[j]),
        decreases statements.len() - k,
    {
        assert(statements@[k as int]@ == views[k as int]);
        if !is_writable(&statements[k]) {
            return false;
        }
        k = k + 1;
    }
    true
}

} // verus!
